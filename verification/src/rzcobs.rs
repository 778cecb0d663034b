//! The inverse of the rzCOBS byte stuffing.
//!
//! A stuffed frame is a run of groups. Each group is some data bytes followed by a header
//! that says what the group stands for:
//!
//! * `0x01..=0x7f`: seven bytes. Bit `j` of the header is set where byte `j` is zero; the
//!   other bytes are the data bytes of the group, in order.
//! * `0x80..=0xfe`: the `header - 0x80 + 7` data bytes of the group, then one zero.
//! * `0xff`: the 134 data bytes of the group.
//!
//! The header comes last, so a frame is read from its end. A zero where a header is due,
//! or a header that claims more data bytes than are left, makes the frame malformed.

use vstd::prelude::*;
use crate::error::Error;

verus! {

/// Whether bit `j` of a seven-byte group header is set, which says that byte `j` of the
/// group is zero.
pub open spec fn zero_at(header: u8, j: u8) -> bool {
    (header >> j) & 1 == 1
}

/// How many of the first `j` bytes of a seven-byte group are data bytes.
pub open spec fn data_before(header: u8, j: int) -> nat
    decreases j,
{
    if j <= 0 {
        0
    } else {
        data_before(header, j - 1) + if zero_at(header, (j - 1) as u8) {
            0nat
        } else {
            1nat
        }
    }
}

/// How many data bytes precede `header` in its group.
pub open spec fn group_data_len(header: u8) -> nat {
    if header <= 0x7f {
        data_before(header, 7)
    } else if header <= 0xfe {
        (header - 0x80 + 7) as nat
    } else {
        134
    }
}

/// The bytes that the group with header `header` and data bytes `data` stands for.
pub open spec fn group_bytes(header: u8, data: Seq<u8>) -> Seq<u8> {
    if header <= 0x7f {
        Seq::new(
            7,
            |j: int|
                if zero_at(header, j as u8) {
                    0u8
                } else {
                    data[data_before(header, j) as int]
                },
        )
    } else if header <= 0xfe {
        data.push(0u8)
    } else {
        data
    }
}

/// The frame that the stuffed bytes `stuffed` stand for, or `None` if they are malformed.
pub open spec fn unstuffed(stuffed: Seq<u8>) -> Option<Seq<u8>>
    decreases stuffed.len(),
{
    if stuffed.len() == 0 {
        Some(Seq::empty())
    } else {
        let header = stuffed.last();
        let before = stuffed.len() - 1 - group_data_len(header);
        if header == 0 || before < 0 {
            None
        } else {
            match unstuffed(stuffed.take(before)) {
                Some(frame) => Some(
                    frame + group_bytes(header, stuffed.subrange(before, stuffed.len() - 1)),
                ),
                None => None,
            }
        }
    }
}

/// A longer part of a group holds no fewer data bytes.
proof fn lemma_data_before_grows(header: u8, i: int, j: int)
    requires
        i <= j,
    ensures
        data_before(header, i) <= data_before(header, j),
    decreases j - i,
{
    if i < j {
        lemma_data_before_grows(header, i, j - 1);
    }
}

/// Whether byte `j` of the seven-byte group with header `header` is zero.
fn is_zero_at(header: u8, j: u8) -> (zero: bool)
    requires
        j < 7,
    ensures
        zero == zero_at(header, j),
{
    (header >> j) & 1 == 1
}

/// Counts the data bytes of the group that `header` closes.
fn data_len(header: u8) -> (len: usize)
    requires
        header != 0,
    ensures
        len == group_data_len(header),
        len <= 134,
{
    if header <= 0x7f {
        let mut len: usize = 0;
        let mut j: u8 = 0;
        while j < 7
            invariant
                j <= 7,
                len == data_before(header, j as int),
                len <= j,
            decreases 7 - j,
        {
            if !is_zero_at(header, j) {
                len = len + 1;
            }
            j = j + 1;
        }
        len
    } else if header <= 0xfe {
        let extra: usize = (header - 0x80) as usize;
        extra + 7
    } else {
        134
    }
}

/// Undoes the byte stuffing of one frame, given without its delimiter.
///
/// Returns the frame, or `MalformedFrame` where `stuffed` is not a run of whole groups.
pub fn unstuff(stuffed: &[u8]) -> (frame: Result<Vec<u8>, Error>)
    ensures
        match frame {
            Ok(bytes) => unstuffed(stuffed@) == Some(bytes@),
            Err(error) => error == Error::MalformedFrame && unstuffed(stuffed@) is None,
        },
{
    // the frame from its end: `reversed[i]` is the `i`-th byte from the back
    let mut reversed: Vec<u8> = Vec::new();
    let ghost mut tail: Seq<u8> = Seq::empty();
    let mut end: usize = stuffed.len();
    assert(stuffed@.take(end as int) == stuffed@);
    assert(unstuffed(stuffed@) is Some ==> unstuffed(stuffed@)->0 + tail == unstuffed(
        stuffed@,
    )->0);
    while end > 0
        invariant
            end <= stuffed@.len(),
            reversed@.len() == tail.len(),
            forall|i: int| 0 <= i < tail.len() ==> reversed@[i] == tail[tail.len() - 1 - i],
            unstuffed(stuffed@) == match unstuffed(stuffed@.take(end as int)) {
                Some(frame) => Some(frame + tail),
                None => None,
            },
        decreases end,
    {
        let ghost whole = stuffed@.take(end as int);
        let header = stuffed[end - 1];
        assert(whole.last() == header);
        if header == 0 {
            return Err(Error::MalformedFrame);
        }
        let len = data_len(header);
        if len > end - 1 {
            return Err(Error::MalformedFrame);
        }
        let start: usize = end - 1 - len;
        let ghost data = whole.subrange(start as int, end - 1);
        let ghost group = group_bytes(header, data);
        assert(whole.take(start as int) == stuffed@.take(start as int));
        assert(data == stuffed@.subrange(start as int, end - 1));
        assert(unstuffed(whole) == match unstuffed(stuffed@.take(start as int)) {
            Some(frame) => Some(frame + group),
            None => None,
        });
        let ghost grown = group + tail;
        if header <= 0x7f {
            let mut taken: usize = len;
            let mut j: u8 = 7;
            while j > 0
                invariant
                    j <= 7,
                    header <= 0x7f,
                    header != 0,
                    taken == data_before(header, j as int),
                    len == data_before(header, 7),
                    start + len == end - 1,
                    end <= stuffed@.len(),
                    data == stuffed@.subrange(start as int, end - 1),
                    group == group_bytes(header, data),
                    grown == group + tail,
                    reversed@.len() == tail.len() + (7 - j),
                    forall|i: int|
                        0 <= i < reversed@.len() ==> reversed@[i] == grown[grown.len() - 1 - i],
                decreases j,
            {
                j = j - 1;
                proof {
                    lemma_data_before_grows(header, j + 1, 7);
                }
                if is_zero_at(header, j) {
                    reversed.push(0);
                } else {
                    taken = taken - 1;
                    reversed.push(stuffed[start + taken]);
                }
            }
        } else {
            if header <= 0xfe {
                reversed.push(0);
            }
            let mut k: usize = len;
            while k > 0
                invariant
                    k <= len,
                    header > 0x7f,
                    start + len == end - 1,
                    end <= stuffed@.len(),
                    data == stuffed@.subrange(start as int, end - 1),
                    group == group_bytes(header, data),
                    grown == group + tail,
                    reversed@.len() == tail.len() + (group.len() - k),
                    forall|i: int|
                        0 <= i < reversed@.len() ==> reversed@[i] == grown[grown.len() - 1 - i],
                decreases k,
            {
                k = k - 1;
                reversed.push(stuffed[start + k]);
            }
        }
        proof {
            assert(reversed@.len() == grown.len());
            match unstuffed(stuffed@.take(start as int)) {
                Some(frame) => {
                    assert((frame + group) + tail == frame + grown);
                },
                None => {},
            }
            tail = grown;
        }
        end = start;
    }
    assert(stuffed@.take(0) == Seq::<u8>::empty());
    assert(unstuffed(stuffed@) == Some(tail)) by {
        assert(Seq::<u8>::empty() + tail == tail);
    }
    let n = reversed.len();
    let mut bytes: Vec<u8> = Vec::new();
    let mut i: usize = 0;
    while i < n
        invariant
            n == reversed@.len(),
            n == tail.len(),
            i <= n,
            bytes@.len() == i,
            forall|k: int| 0 <= k < n ==> reversed@[k] == tail[n - 1 - k],
            forall|k: int| 0 <= k < i ==> bytes@[k] == tail[k],
        decreases n - i,
    {
        bytes.push(reversed[n - 1 - i]);
        i = i + 1;
    }
    assert(bytes@ == tail);
    Ok(bytes)
}

} // verus!
