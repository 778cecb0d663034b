//! The registry of bitflags types: for each declaration, its named values in the order in
//! which they were declared.

use vstd::prelude::*;

verus! {

/// Data that uniquely identifies one declaration of a bitflags type.
#[derive(Debug, Hash)]
pub struct BitflagsKey {
    /// Name of the bitflags struct.
    ident: String,
    /// The package in which it is declared.
    package: String,
    /// Tells apart declarations that share a name.
    disambig: String,
    /// The compilation unit in which it is declared, where that is known.
    crate_name: Option<String>,
}

/// What a [`BitflagsKey`] holds. Two keys are the same key exactly when all four parts
/// agree.
pub ghost struct BitflagsKeyView {
    pub ident: Seq<char>,
    pub package: Seq<char>,
    pub disambig: Seq<char>,
    pub crate_name: Option<Seq<char>>,
}

impl View for BitflagsKey {
    type V = BitflagsKeyView;

    closed spec fn view(&self) -> BitflagsKeyView {
        BitflagsKeyView {
            ident: self.ident@,
            package: self.package@,
            disambig: self.disambig@,
            crate_name: match self.crate_name {
                Some(name) => Some(name@),
                None => None,
            },
        }
    }
}

impl PartialEq for BitflagsKey {
    fn eq(&self, other: &Self) -> (same: bool) {
        let same_crate = match (&self.crate_name, &other.crate_name) {
            (Some(a), Some(b)) => *a == *b,
            (None, None) => true,
            _ => false,
        };
        same_crate && self.ident == other.ident && self.package == other.package && self.disambig
            == other.disambig
    }
}

impl Eq for BitflagsKey {

}

impl vstd::std_specs::cmp::PartialEqSpecImpl for BitflagsKey {
    open spec fn obeys_eq_spec() -> bool {
        true
    }

    open spec fn eq_spec(&self, other: &Self) -> bool {
        self@ == other@
    }
}

impl BitflagsKey {
    pub fn new(ident: String, package: String, disambig: String, crate_name: Option<String>) -> (key:
        Self)
        ensures
            key@ == (BitflagsKeyView {
                ident: ident@,
                package: package@,
                disambig: disambig@,
                crate_name: match crate_name {
                    Some(name) => Some(name@),
                    None => None,
                },
            }),
    {
        BitflagsKey { ident, package, disambig, crate_name }
    }
}

/// The named values of one bitflags type, each as its name and its 128-bit value.
pub open spec fn variant_views(variants: Seq<(String, u128)>) -> Seq<(Seq<char>, u128)> {
    variants.map_values(|variant: (String, u128)| (variant.0@, variant.1))
}

/// One bitflags type with its values in declaration order.
#[derive(Debug)]
struct Declaration {
    key: BitflagsKey,
    variants: Vec<(String, u128)>,
}

/// Maps each bitflags type to its named values, in the order in which they were declared.
#[derive(Debug)]
pub struct BitflagsRegistry {
    declarations: Vec<Declaration>,
}

impl BitflagsRegistry {
    /// No key is held twice. Every registry that this module hands out is well formed.
    pub closed spec fn wf(self) -> bool {
        forall|i: int, j: int|
            0 <= i < j < self.declarations@.len() ==> self.declarations@[i].key@
                != self.declarations@[j].key@
    }

    /// Where `key` is held, if it is.
    spec fn position(self, key: BitflagsKeyView) -> int {
        choose|i: int| 0 <= i < self.declarations@.len() && self.declarations@[i].key@ == key
    }

    /// The registry maps the key of each declaration to the values of that declaration.
    proof fn lemma_view_of_declaration(self, i: int)
        requires
            self.wf(),
            0 <= i < self.declarations@.len(),
        ensures
            self@.contains_key(self.declarations@[i].key@),
            self.position(self.declarations@[i].key@) == i,
            self@[self.declarations@[i].key@] == variant_views(self.declarations@[i].variants@),
    {
    }
}

impl View for BitflagsRegistry {
    type V = Map<BitflagsKeyView, Seq<(Seq<char>, u128)>>;

    closed spec fn view(&self) -> Map<BitflagsKeyView, Seq<(Seq<char>, u128)>> {
        Map::new(
            |key: BitflagsKeyView|
                exists|i: int|
                    0 <= i < self.declarations@.len() && self.declarations@[i].key@ == key,
            |key: BitflagsKeyView| variant_views(self.declarations@[self.position(key)].variants@),
        )
    }
}

impl BitflagsRegistry {
    /// A registry that knows no bitflags type.
    pub fn new() -> (registry: Self)
        ensures
            registry.wf(),
            registry@ == Map::<BitflagsKeyView, Seq<(Seq<char>, u128)>>::empty(),
    {
        let registry = BitflagsRegistry { declarations: Vec::new() };
        assert(registry@ =~= Map::<BitflagsKeyView, Seq<(Seq<char>, u128)>>::empty());
        registry
    }

    /// The place of `key` among the declarations.
    fn find(&self, key: &BitflagsKey) -> (found: Option<usize>)
        requires
            self.wf(),
        ensures
            match found {
                Some(i) => i < self.declarations@.len() && self.declarations@[i as int].key@
                    == key@ && self.position(key@) == i,
                None => !self@.contains_key(key@),
            },
    {
        let n = self.declarations.len();
        let mut i: usize = 0;
        while i < n
            invariant
                self.wf(),
                n == self.declarations@.len(),
                i <= n,
                forall|k: int| 0 <= k < i ==> self.declarations@[k].key@ != key@,
            decreases n - i,
        {
            if self.declarations[i].key == *key {
                return Some(i);
            }
            i = i + 1;
        }
        None
    }

    /// Adds the value `name = value` to the bitflags type `key`, after the values that the
    /// type already has. A type that was not known yet becomes known with this one value.
    pub fn declare(&mut self, key: BitflagsKey, name: String, value: u128)
        requires
            old(self).wf(),
        ensures
            final(self).wf(),
            final(self)@ == old(self)@.insert(
                key@,
                if old(self)@.contains_key(key@) {
                    old(self)@[key@].push((name@, value))
                } else {
                    seq![(name@, value)]
                },
            ),
    {
        match self.find(&key) {
            Some(i) => {
                let ghost before = self.declarations@[i as int].variants@;
                proof {
                    old(self).lemma_view_of_declaration(i as int);
                }
                self.declarations[i].variants.push((name, value));
                assert(variant_views(before.push((name, value))) =~= variant_views(before).push(
                    (name@, value),
                ));
                assert(self.wf());
                assert forall|k: BitflagsKeyView| #[trigger]
                    self@.contains_key(k) == old(self)@.insert(
                        key@,
                        old(self)@[key@].push((name@, value)),
                    ).contains_key(k) by {
                    if old(self)@.contains_key(k) {
                        let j = old(self).position(k);
                        assert(self.declarations@[j].key@ == k);
                    }
                }
                assert forall|k: BitflagsKeyView| #[trigger] self@.contains_key(k) implies self@[k]
                    == old(self)@.insert(key@, old(self)@[key@].push((name@, value)))[k] by {
                    let j = self.position(k);
                    self.lemma_view_of_declaration(j);
                    old(self).lemma_view_of_declaration(j);
                }
                assert(self@ =~= old(self)@.insert(
                    key@,
                    old(self)@[key@].push((name@, value)),
                ));
            },
            None => {
                let mut variants = Vec::new();
                variants.push((name, value));
                assert(variant_views(variants@) =~= seq![(name@, value)]);
                self.declarations.push(Declaration { key, variants });
                let ghost last = self.declarations@.len() - 1;
                assert(self.wf());
                assert forall|k: BitflagsKeyView| #[trigger]
                    self@.contains_key(k) == old(self)@.insert(
                        key@,
                        seq![(name@, value)],
                    ).contains_key(k) by {
                    if old(self)@.contains_key(k) {
                        let j = old(self).position(k);
                        assert(self.declarations@[j].key@ == k);
                    }
                    if k == key@ {
                        assert(self.declarations@[last].key@ == k);
                    }
                }
                assert forall|k: BitflagsKeyView| #[trigger] self@.contains_key(k) implies self@[k]
                    == old(self)@.insert(key@, seq![(name@, value)])[k] by {
                    let j = self.position(k);
                    self.lemma_view_of_declaration(j);
                    if j < last {
                        old(self).lemma_view_of_declaration(j);
                    }
                }
                assert(self@ =~= old(self)@.insert(key@, seq![(name@, value)]));
            },
        }
    }

    /// The named values of the bitflags type `key`, in declaration order, if the type is
    /// known.
    pub fn resolve(&self, key: &BitflagsKey) -> (variants: Option<&[(String, u128)]>)
        requires
            self.wf(),
        ensures
            match variants {
                Some(found) => self@.contains_key(key@) && variant_views(found@) == self@[key@],
                None => !self@.contains_key(key@),
            },
    {
        match self.find(key) {
            Some(i) => {
                proof {
                    self.lemma_view_of_declaration(i as int);
                }
                Some(self.declarations[i].variants.as_slice())
            },
            None => None,
        }
    }
}

} // verus!
