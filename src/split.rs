//! Splitting a byte stream into records ended by `\r\n`.

use vstd::prelude::*;
use vstd::slice::slice_subrange;

verus! {

/// Whether a `\r\n` pair starts at position `i` of `s`.
pub open spec fn crlf_at(s: Seq<u8>, i: int) -> bool {
    0 <= i && i + 1 < s.len() && s[i] == 13u8 && s[i + 1] == 10u8
}

/// The records of `s`, with `cur` the part of a record read before `s`.
/// A record ends at each `\r\n`; bytes after the last `\r\n` form no record.
pub open spec fn records_from(s: Seq<u8>, cur: Seq<u8>) -> Seq<Seq<u8>>
    decreases s.len(),
{
    if s.len() < 2 {
        seq![]
    } else if s[0] == 13u8 && s[1] == 10u8 {
        seq![cur] + records_from(s.skip(2), seq![])
    } else {
        records_from(s.drop_first(), cur.push(s[0]))
    }
}

/// The records of `s`: the byte runs that each end with `\r\n`, without it.
pub open spec fn records(s: Seq<u8>) -> Seq<Seq<u8>> {
    records_from(s, seq![])
}

proof fn lemma_records_no_crlf(s: Seq<u8>, cur: Seq<u8>)
    requires
        forall|i: int| !crlf_at(s, i),
    ensures
        records_from(s, cur) == Seq::<Seq<u8>>::empty(),
    decreases s.len(),
{
    if s.len() >= 2 {
        assert(!crlf_at(s, 0));
        assert forall|i: int| !crlf_at(s.drop_first(), i) by {
            assert(!crlf_at(s, i + 1));
        }
        lemma_records_no_crlf(s.drop_first(), cur.push(s[0]));
    }
}

pub proof fn lemma_records_first_crlf(s: Seq<u8>, cur: Seq<u8>, k: int)
    requires
        crlf_at(s, k),
        forall|i: int| 0 <= i < k ==> !crlf_at(s, i),
    ensures
        records_from(s, cur) == seq![cur + s.take(k)] + records_from(s.skip(k + 2), seq![]),
    decreases k,
{
    if k == 0 {
        assert(cur + s.take(0) =~= cur);
    } else {
        assert(!crlf_at(s, 0));
        assert forall|i: int| 0 <= i < k - 1 implies !crlf_at(s.drop_first(), i) by {
            assert(!crlf_at(s, i + 1));
        }
        assert(crlf_at(s.drop_first(), k - 1));
        lemma_records_first_crlf(s.drop_first(), cur.push(s[0]), k - 1);
        assert(cur.push(s[0]) + s.drop_first().take(k - 1) =~= cur + s.take(k));
        assert(s.drop_first().skip(k + 1) =~= s.skip(k + 2));
    }
}

/// Splits a byte buffer at `\r\n`, handing out one record at a time.
///
/// Each record is the bytes before a `\r\n`, which is not part of it. Bytes
/// after the last `\r\n` are never handed out.
#[derive(Debug, PartialEq)]
pub struct SplitAtRN<'a> {
    buff: &'a [u8],
}

impl<'a> View for SplitAtRN<'a> {
    type V = Seq<u8>;

    /// The bytes not yet split off.
    closed spec fn view(&self) -> Seq<u8> {
        self.buff@
    }
}

impl<'a> SplitAtRN<'a> {
    /// Creates a splitter over `buff`.
    pub fn new(buff: &'a [u8]) -> (r: Self)
        ensures
            r@ == buff@,
    {
        SplitAtRN { buff }
    }

    /// Returns the next record, or `None` once no `\r\n` is left.
    pub fn next(&mut self) -> (r: Option<&'a [u8]>)
        ensures
            records(old(self)@).len() == 0 ==> r is None && final(self)@ == old(self)@,
            records(old(self)@).len() > 0 ==> {
                &&& r matches Some(rec)
                &&& rec@ == records(old(self)@)[0]
                &&& records(final(self)@) == records(old(self)@).drop_first()
                &&& final(self)@.len() < old(self)@.len()
            },
    {
        let n = self.buff.len();
        let ghost s = self.buff@;
        let mut i: usize = 1;
        while i < n
            invariant
                n == s.len(),
                s == self.buff@,
                s == old(self)@,
                1 <= i,
                forall|j: int| 0 <= j < i - 1 ==> !crlf_at(s, j),
            decreases n - i,
        {
            if self.buff[i - 1] == 13u8 && self.buff[i] == 10u8 {
                let rec = slice_subrange(self.buff, 0, i - 1);
                self.buff = slice_subrange(self.buff, i + 1, n);
                proof {
                    lemma_records_first_crlf(s, seq![], i - 1);
                    assert(Seq::<u8>::empty() + s.take(i - 1) =~= rec@);
                    assert(s.skip(i + 1) =~= self.buff@);
                    assert(records(s) =~= seq![rec@] + records(self.buff@));
                    assert(records(s).drop_first() =~= records(self.buff@));
                }
                return Some(rec);
            }
            i = i + 1;
        }
        proof {
            assert forall|j: int| !crlf_at(s, j) by {
                if 0 <= j && j + 1 < s.len() {
                    assert(j < i - 1);
                }
            }
            lemma_records_no_crlf(s, seq![]);
        }
        None
    }
}

} // verus!
