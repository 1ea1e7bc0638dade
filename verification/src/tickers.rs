use vstd::prelude::*;
use vstd::slice::slice_subrange;
use vstd::slice::slice_to_vec;
use crate::matcher::tickers_view;

verus! {

// The requested tickers come as one comma-separated argument; they are
// split on every comma, empty pieces kept, as the request order.

/// Index of the first comma at or after `i`, or the end.
pub open spec fn spec_next_comma(s: Seq<u8>, i: int) -> int
    decreases s.len() - i,
{
    if 0 <= i < s.len() && s[i] != 44 {
        spec_next_comma(s, i + 1)
    } else {
        i
    }
}

/// The pieces of `s` from `i` on, split on every comma.
pub open spec fn spec_split_from(s: Seq<u8>, i: int) -> Seq<Seq<u8>>
    decreases s.len() - i,
{
    let j = spec_next_comma(s, i);
    if !(0 <= i && i <= j && j <= s.len()) {
        Seq::empty()
    } else if j < s.len() {
        seq![s.subrange(i, j)] + spec_split_from(s, j + 1)
    } else {
        seq![s.subrange(i, j)]
    }
}

/// The whole ticker-list split on commas: one more piece than there
/// are commas, empty pieces kept.
pub open spec fn spec_split(s: Seq<u8>) -> Seq<Seq<u8>> {
    spec_split_from(s, 0)
}

fn next_comma(s: &[u8], i: usize) -> (r: usize)
    requires
        i <= s@.len(),
    ensures
        r == spec_next_comma(s@, i as int),
        i <= r <= s@.len(),
    decreases s@.len() - i,
{
    if i < s.len() && s[i] != 44 {
        next_comma(s, i + 1)
    } else {
        i
    }
}

fn split_from(s: &[u8], i: usize) -> (r: Vec<Vec<u8>>)
    requires
        i <= s@.len(),
    ensures
        tickers_view(r@) == spec_split_from(s@, i as int),
    decreases s@.len() - i,
{
    let j = next_comma(s, i);
    let piece = slice_to_vec(slice_subrange(s, i, j));
    if j < s.len() {
        let rest = split_from(s, j + 1);
        let mut out = rest;
        out.insert(0, piece);
        proof {
            assert(tickers_view(out@) =~= seq![out@[0]@] + tickers_view(out@.drop_first()));
            assert(out@.drop_first() =~= out@.skip(1));
        }
        out
    } else {
        let mut out: Vec<Vec<u8>> = Vec::new();
        out.push(piece);
        proof {
            assert(tickers_view(out@) =~= seq![out@[0]@]);
        }
        out
    }
}

/// Splits the requested ticker-list on commas, empty pieces kept, in
/// the order given.
pub fn split_tickers(s: &[u8]) -> (r: Vec<Vec<u8>>)
    ensures
        tickers_view(r@) == spec_split(s@),
{
    split_from(s, 0)
}

} // verus!
