use vstd::prelude::*;
use crate::quote::Quote;
use crate::quote::QuoteView;
use crate::quote::quotes_view;

verus! {

// The output line.  Each matched quote becomes one piece; pieces are
// joined by single spaces, with no trailing space and no newline.

/// One quote as `SYMBOL $PRICE`, with ` (CHANGE)` appended when
/// `with_change` is set and the response carried a change.
pub open spec fn piece(q: QuoteView, with_change: bool) -> Seq<u8> {
    q.symbol + seq![32u8, 36u8] + q.price + if with_change {
        match q.change {
            Some(c) => seq![32u8, 40u8] + c + seq![41u8],
            None => Seq::empty(),
        }
    } else {
        Seq::empty()
    }
}

/// The whole line: pieces in quote order, joined by single spaces.
pub open spec fn spec_render(qs: Seq<QuoteView>, with_change: bool) -> Seq<u8>
    decreases qs.len(),
{
    if qs.len() == 0 {
        Seq::empty()
    } else if qs.len() == 1 {
        piece(qs.first(), with_change)
    } else {
        piece(qs.first(), with_change) + seq![32u8] + spec_render(qs.drop_first(), with_change)
    }
}

fn push_piece(out: &mut Vec<u8>, q: &Quote, with_change: bool)
    ensures
        final(out)@ == old(out)@ + piece(q@, with_change),
{
    out.extend_from_slice(q.symbol.as_slice());
    out.push(32);
    out.push(36);
    out.extend_from_slice(q.price.as_slice());
    if with_change {
        match &q.change {
            Some(c) => {
                out.push(32);
                out.push(40);
                out.extend_from_slice(c.as_slice());
                out.push(41);
            },
            None => {},
        }
    }
    assert(out@ =~= old(out)@ + piece(q@, with_change));
}

fn render_from(qs: &Vec<Quote>, i: usize, with_change: bool) -> (out: Vec<u8>)
    requires
        i <= qs@.len(),
    ensures
        out@ == spec_render(quotes_view(qs@).skip(i as int), with_change),
    decreases qs@.len() - i,
{
    let ghost vq = quotes_view(qs@);
    let mut out: Vec<u8> = Vec::new();
    if i >= qs.len() {
        proof {
            assert(vq.skip(i as int) =~= Seq::<QuoteView>::empty());
        }
        return out;
    }
    proof {
        assert(vq.skip(i as int).first() == vq[i as int]);
        assert(vq.skip(i as int).drop_first() =~= vq.skip(i + 1));
    }
    push_piece(&mut out, &qs[i], with_change);
    proof {
        assert(out@ =~= piece(vq[i as int], with_change));
    }
    if i + 1 < qs.len() {
        out.push(32);
        let mut rest = render_from(qs, i + 1, with_change);
        out.append(&mut rest);
        proof {
            assert(out@ =~= piece(vq[i as int], with_change) + seq![32u8] + spec_render(
                vq.skip(i + 1),
                with_change,
            ));
        }
    }
    out
}

/// Renders strict-match output: `SYMBOL $PRICE` per quote, space
/// separated, no trailing space.
pub fn render_strict(qs: &Vec<Quote>) -> (out: Vec<u8>)
    ensures
        out@ == spec_render(quotes_view(qs@), false),
{
    proof {
        assert(quotes_view(qs@).skip(0) =~= quotes_view(qs@));
    }
    render_from(qs, 0, false)
}

/// Renders set-match output: `SYMBOL $PRICE (CHANGE)` per quote, space
/// separated, no trailing space.
pub fn render_set(qs: &Vec<Quote>) -> (out: Vec<u8>)
    ensures
        out@ == spec_render(quotes_view(qs@), true),
{
    proof {
        assert(quotes_view(qs@).skip(0) =~= quotes_view(qs@));
    }
    render_from(qs, 0, true)
}

} // verus!
