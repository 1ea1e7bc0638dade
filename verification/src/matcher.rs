use vstd::prelude::*;
use crate::parse::parse_quotes;
use crate::parse::spec_parse_quotes;
use crate::quote::Quote;
use crate::quote::QuoteError;
use crate::quote::QuoteView;
use crate::quote::quotes_view;

verus! {

// Matching parsed quotes against the requested tickers.  Two policies:
// strict matching requires a quote for every requested ticker and keeps
// the request order; set matching keeps the quotes whose symbol was
// requested, in response order, and never fails over an absent ticker.

/// The requested tickers as byte sequences, in request order.
pub open spec fn tickers_view(ts: Seq<Vec<u8>>) -> Seq<Seq<u8>> {
    ts.map_values(|t: Vec<u8>| t@)
}

/// The requested tickers as a set: duplicates collapse, order is gone.
pub open spec fn ticker_set(ts: Seq<Vec<u8>>) -> Set<Seq<u8>> {
    tickers_view(ts).to_set()
}

/// The quote for `sym` among `qs`, the last one when the response
/// repeated a symbol, as a symbol-keyed mapping built in response order
/// would hold it.
pub open spec fn lookup(qs: Seq<QuoteView>, sym: Seq<u8>) -> Option<QuoteView>
    decreases qs.len(),
{
    if qs.len() == 0 {
        None
    } else if qs.last().symbol == sym {
        Some(qs.last())
    } else {
        lookup(qs.drop_last(), sym)
    }
}

/// Strict matching: the quote for each requested ticker in request
/// order, or the first requested ticker that has no quote.
pub open spec fn strict_match(qs: Seq<QuoteView>, req: Seq<Seq<u8>>) -> Result<
    Seq<QuoteView>,
    Seq<u8>,
>
    decreases req.len(),
{
    if req.len() == 0 {
        Ok(Seq::empty())
    } else {
        match lookup(qs, req.first()) {
            None => Err(req.first()),
            Some(q) => match strict_match(qs, req.drop_first()) {
                Ok(rest) => Ok(seq![q] + rest),
                Err(t) => Err(t),
            },
        }
    }
}

/// Set matching: the quotes whose symbol lies in `req`, in the order
/// the response gave them.
pub open spec fn filter_quotes(qs: Seq<QuoteView>, req: Set<Seq<u8>>) -> Seq<QuoteView>
    decreases qs.len(),
{
    if qs.len() == 0 {
        Seq::empty()
    } else if req.contains(qs.first().symbol) {
        seq![qs.first()] + filter_quotes(qs.drop_first(), req)
    } else {
        filter_quotes(qs.drop_first(), req)
    }
}

fn bytes_eq(a: &Vec<u8>, b: &Vec<u8>) -> (r: bool)
    ensures
        r == (a@ == b@),
{
    if a.len() != b.len() {
        return false;
    }
    let mut k: usize = 0;
    while k < a.len()
        invariant
            k <= a@.len(),
            a@.len() == b@.len(),
            forall|t: int| 0 <= t < k ==> a@[t] == b@[t],
        decreases a@.len() - k,
    {
        if a[k] != b[k] {
            return false;
        }
        k = k + 1;
    }
    proof {
        assert(a@ =~= b@);
    }
    true
}

fn clone_bytes(v: &Vec<u8>) -> (r: Vec<u8>)
    ensures
        r@ == v@,
{
    let mut out: Vec<u8> = Vec::new();
    let mut k: usize = 0;
    while k < v.len()
        invariant
            k <= v@.len(),
            out@ == v@.take(k as int),
        decreases v@.len() - k,
    {
        out.push(v[k]);
        proof {
            assert(out@ =~= v@.take(k + 1));
        }
        k = k + 1;
    }
    proof {
        assert(v@.take(v@.len() as int) =~= v@);
    }
    out
}

fn clone_quote(q: &Quote) -> (r: Quote)
    ensures
        r@ == q@,
{
    let change = match &q.change {
        Some(c) => Some(clone_bytes(c)),
        None => None,
    };
    Quote { symbol: clone_bytes(&q.symbol), price: clone_bytes(&q.price), change }
}

fn find_in_prefix(quotes: &Vec<Quote>, sym: &Vec<u8>, n: usize) -> (r: Option<Quote>)
    requires
        n <= quotes@.len(),
    ensures
        match lookup(quotes_view(quotes@).take(n as int), sym@) {
            None => r is None,
            Some(q) => r is Some && r->0@ == q,
        },
    decreases n,
{
    let ghost vq = quotes_view(quotes@);
    if n == 0 {
        proof {
            assert(vq.take(0) =~= Seq::<QuoteView>::empty());
        }
        return None;
    }
    proof {
        assert(vq.take(n as int).last() == vq[n - 1]);
        assert(vq.take(n as int).drop_last() =~= vq.take(n - 1));
    }
    if bytes_eq(&quotes[n - 1].symbol, sym) {
        Some(clone_quote(&quotes[n - 1]))
    } else {
        find_in_prefix(quotes, sym, n - 1)
    }
}

fn find_quote(quotes: &Vec<Quote>, sym: &Vec<u8>) -> (r: Option<Quote>)
    ensures
        match lookup(quotes_view(quotes@), sym@) {
            None => r is None,
            Some(q) => r is Some && r->0@ == q,
        },
{
    proof {
        assert(quotes_view(quotes@).take(quotes@.len() as int) =~= quotes_view(quotes@));
    }
    find_in_prefix(quotes, sym, quotes.len())
}

fn contains_ticker(tickers: &Vec<Vec<u8>>, sym: &Vec<u8>) -> (r: bool)
    ensures
        r == ticker_set(tickers@).contains(sym@),
{
    let mut k: usize = 0;
    while k < tickers.len()
        invariant
            k <= tickers@.len(),
            forall|t: int| 0 <= t < k ==> tickers_view(tickers@)[t] != sym@,
        decreases tickers@.len() - k,
    {
        if bytes_eq(&tickers[k], sym) {
            proof {
                assert(tickers_view(tickers@)[k as int] == sym@);
            }
            return true;
        }
        k = k + 1;
    }
    proof {
        assert(!tickers_view(tickers@).contains(sym@));
    }
    false
}

fn select_strict_rec(quotes: &Vec<Quote>, tickers: &Vec<Vec<u8>>, k: usize) -> (r: Result<
    Vec<Quote>,
    QuoteError,
>)
    requires
        k <= tickers@.len(),
    ensures
        match strict_match(quotes_view(quotes@), tickers_view(tickers@).skip(k as int)) {
            Ok(sel) => r is Ok && quotes_view(r->Ok_0@) == sel,
            Err(t) => r is Err && r->Err_0 is MissingTicker && r->Err_0->MissingTicker_0@ == t,
        },
    decreases tickers@.len() - k,
{
    let ghost req = tickers_view(tickers@);
    if k >= tickers.len() {
        proof {
            assert(req.skip(k as int) =~= Seq::<Seq<u8>>::empty());
            assert(quotes_view(Seq::<Quote>::empty()) =~= Seq::<QuoteView>::empty());
        }
        return Ok(Vec::new());
    }
    proof {
        assert(req.skip(k as int).first() == req[k as int]);
        assert(req.skip(k as int).drop_first() =~= req.skip(k + 1));
    }
    match find_quote(quotes, &tickers[k]) {
        None => Err(QuoteError::MissingTicker(clone_bytes(&tickers[k]))),
        Some(q) => {
            match select_strict_rec(quotes, tickers, k + 1) {
                Err(e) => Err(e),
                Ok(rest) => {
                    let mut out = rest;
                    out.insert(0, q);
                    proof {
                        assert(quotes_view(out@) =~= seq![q@] + quotes_view(out@.drop_first()));
                    }
                    Ok(out)
                },
            }
        },
    }
}

/// Strict matching over parsed quotes: the quote for each requested
/// ticker, in request order; fails naming the first requested ticker
/// that has no quote, and then selects nothing.
pub fn select_strict(quotes: &Vec<Quote>, tickers: &Vec<Vec<u8>>) -> (r: Result<
    Vec<Quote>,
    QuoteError,
>)
    ensures
        match strict_match(quotes_view(quotes@), tickers_view(tickers@)) {
            Ok(sel) => r is Ok && quotes_view(r->Ok_0@) == sel,
            Err(t) => r is Err && r->Err_0 is MissingTicker && r->Err_0->MissingTicker_0@ == t,
        },
{
    proof {
        assert(tickers_view(tickers@).skip(0) =~= tickers_view(tickers@));
    }
    select_strict_rec(quotes, tickers, 0)
}

fn select_set_rec(quotes: &Vec<Quote>, tickers: &Vec<Vec<u8>>, i: usize) -> (r: Vec<Quote>)
    requires
        i <= quotes@.len(),
    ensures
        quotes_view(r@) == filter_quotes(quotes_view(quotes@).skip(i as int), ticker_set(tickers@)),
    decreases quotes@.len() - i,
{
    let ghost vq = quotes_view(quotes@);
    if i >= quotes.len() {
        proof {
            assert(vq.skip(i as int) =~= Seq::<QuoteView>::empty());
            assert(quotes_view(Seq::<Quote>::empty()) =~= Seq::<QuoteView>::empty());
        }
        return Vec::new();
    }
    proof {
        assert(vq.skip(i as int).first() == vq[i as int]);
        assert(vq.skip(i as int).drop_first() =~= vq.skip(i + 1));
    }
    let rest = select_set_rec(quotes, tickers, i + 1);
    if contains_ticker(tickers, &quotes[i].symbol) {
        let mut out = rest;
        out.insert(0, clone_quote(&quotes[i]));
        proof {
            assert(quotes_view(out@) =~= seq![vq[i as int]] + quotes_view(out@.drop_first()));
        }
        out
    } else {
        rest
    }
}

/// Set matching over parsed quotes: the quotes whose symbol was
/// requested, in response order; a requested ticker without a quote is
/// passed over in silence.
pub fn select_set(quotes: &Vec<Quote>, tickers: &Vec<Vec<u8>>) -> (r: Vec<Quote>)
    ensures
        quotes_view(r@) == filter_quotes(quotes_view(quotes@), ticker_set(tickers@)),
{
    proof {
        assert(quotes_view(quotes@).skip(0) =~= quotes_view(quotes@));
    }
    select_set_rec(quotes, tickers, 0)
}

/// Parses the response body and keeps the quotes whose symbol was
/// requested, in response order (set matching).  Fails exactly when the
/// body is not a well-formed quote array; a requested ticker without a
/// quote is passed over in silence.
pub fn parse_prices(response: &[u8], tickers: &Vec<Vec<u8>>) -> (r: Result<Vec<Quote>, QuoteError>)
    ensures
        match spec_parse_quotes(response@) {
            None => r == Err::<Vec<Quote>, QuoteError>(QuoteError::Parse),
            Some(qs) => r is Ok && quotes_view(r->Ok_0@) == filter_quotes(
                qs,
                ticker_set(tickers@),
            ),
        },
{
    match parse_quotes(response) {
        Err(e) => Err(e),
        Ok(quotes) => Ok(select_set(&quotes, tickers)),
    }
}

/// Parses the response body and matches strictly: the quote for each
/// requested ticker, in request order.  Fails on a body that is not a
/// well-formed quote array, and on the first requested ticker that has
/// no quote, naming that ticker; nothing is selected then.
pub fn parse_prices_strict(response: &[u8], tickers: &Vec<Vec<u8>>) -> (r: Result<
    Vec<Quote>,
    QuoteError,
>)
    ensures
        match spec_parse_quotes(response@) {
            None => r == Err::<Vec<Quote>, QuoteError>(QuoteError::Parse),
            Some(qs) => match strict_match(qs, tickers_view(tickers@)) {
                Ok(sel) => r is Ok && quotes_view(r->Ok_0@) == sel,
                Err(t) => r is Err && r->Err_0 is MissingTicker && r->Err_0->MissingTicker_0@
                    == t,
            },
        },
{
    match parse_quotes(response) {
        Err(e) => Err(e),
        Ok(quotes) => select_strict(&quotes, tickers),
    }
}

/// A found quote carries the symbol it was looked up by, and comes
/// from the response.
pub proof fn lemma_lookup_found(qs: Seq<QuoteView>, sym: Seq<u8>)
    requires
        lookup(qs, sym) is Some,
    ensures
        lookup(qs, sym).unwrap().symbol == sym,
        qs.contains(lookup(qs, sym).unwrap()),
    decreases qs.len(),
{
    if qs.len() > 0 {
        if qs.last().symbol == sym {
            assert(qs[qs.len() - 1] == qs.last());
        } else {
            lemma_lookup_found(qs.drop_last(), sym);
            let q = lookup(qs.drop_last(), sym).unwrap();
            let i = choose|i: int| 0 <= i < qs.drop_last().len() && qs.drop_last()[i] == q;
            assert(qs[i] == q);
        }
    }
}

/// Strict matching, when every requested ticker has a quote: it
/// succeeds, and the output carries, for each position of the request,
/// the quote of that requested ticker — request order, whatever order
/// the response gave the quotes in.
pub proof fn lemma_strict_order(qs: Seq<QuoteView>, req: Seq<Seq<u8>>)
    requires
        forall|j: int| 0 <= j < req.len() ==> lookup(qs, #[trigger] req[j]) is Some,
    ensures
        strict_match(qs, req) is Ok,
        strict_match(qs, req)->Ok_0.len() == req.len(),
        forall|j: int| 0 <= j < req.len() ==> #[trigger] strict_match(qs, req)->Ok_0[j]
            == lookup(qs, req[j]).unwrap(),
        forall|j: int| 0 <= j < req.len() ==> #[trigger] strict_match(qs, req)->Ok_0[j].symbol
            == req[j],
    decreases req.len(),
{
    if req.len() > 0 {
        let rest = req.drop_first();
        assert(forall|j: int| 0 <= j < rest.len() ==> lookup(qs, #[trigger] rest[j]) is Some)
            by {
            assert(forall|j: int| 0 <= j < rest.len() ==> #[trigger] rest[j] == req[j + 1]);
        }
        lemma_strict_order(qs, rest);
        let out = strict_match(qs, req)->Ok_0;
        assert(forall|j: int| 0 <= j < req.len() ==> #[trigger] out[j] == lookup(
            qs,
            req[j],
        ).unwrap()) by {
            assert(forall|j: int| 0 <= j < rest.len() ==> #[trigger] rest[j] == req[j + 1]);
            assert(req.first() == req[0]);
        }
        assert forall|j: int| 0 <= j < req.len() implies #[trigger] out[j].symbol == req[j] by {
            lemma_lookup_found(qs, req[j]);
        }
    }
}

/// Strict matching, when some requested ticker has no quote: it fails,
/// and the error names the first such ticker in request order.
pub proof fn lemma_strict_missing(qs: Seq<QuoteView>, req: Seq<Seq<u8>>, j: int)
    requires
        0 <= j < req.len(),
        lookup(qs, req[j]) is None,
        forall|k: int| 0 <= k < j ==> lookup(qs, #[trigger] req[k]) is Some,
    ensures
        strict_match(qs, req) == Err::<Seq<QuoteView>, Seq<u8>>(req[j]),
    decreases j,
{
    assert(req.first() == req[0]);
    if j > 0 {
        let rest = req.drop_first();
        assert(forall|k: int| 0 <= k < rest.len() ==> #[trigger] rest[k] == req[k + 1]);
        lemma_strict_missing(qs, rest, j - 1);
    }
}

/// Set matching: requesting a ticker that the response has no quote
/// for changes nothing — the result passes over it in silence.
pub proof fn lemma_set_absent(qs: Seq<QuoteView>, req: Set<Seq<u8>>, t: Seq<u8>)
    requires
        forall|i: int| 0 <= i < qs.len() ==> (#[trigger] qs[i]).symbol != t,
    ensures
        filter_quotes(qs, req.insert(t)) == filter_quotes(qs, req),
    decreases qs.len(),
{
    if qs.len() > 0 {
        assert(qs.first() == qs[0]);
        assert(forall|i: int| 0 <= i < qs.drop_first().len() ==> #[trigger] qs.drop_first()[i]
            == qs[i + 1]);
        lemma_set_absent(qs.drop_first(), req, t);
    }
}

/// Set matching: a ticker requested twice adds nothing — the requested
/// tickers act as a set, so the output carries no entry twice over a
/// repeated request.
pub proof fn lemma_set_duplicate(qs: Seq<QuoteView>, ts: Seq<Vec<u8>>, t: Vec<u8>)
    requires
        tickers_view(ts).contains(t@),
    ensures
        filter_quotes(qs, ticker_set(ts.push(t))) == filter_quotes(qs, ticker_set(ts)),
{
    assert(forall|i: int| 0 <= i < ts.len() ==> #[trigger] tickers_view(ts.push(t))[i]
        == tickers_view(ts)[i]);
    assert(tickers_view(ts.push(t))[ts.len() as int] == t@);
    assert(ticker_set(ts.push(t)) =~= ticker_set(ts)) by {
        assert forall|x: Seq<u8>| tickers_view(ts.push(t)).contains(x) implies tickers_view(
            ts,
        ).contains(x) by {
            let i = choose|i: int| 0 <= i < tickers_view(ts.push(t)).len() && tickers_view(
                ts.push(t),
            )[i] == x;
            if i < ts.len() {
                assert(tickers_view(ts)[i] == x);
            }
        }
        assert forall|x: Seq<u8>| tickers_view(ts).contains(x) implies tickers_view(
            ts.push(t),
        ).contains(x) by {
            let i = choose|i: int| 0 <= i < tickers_view(ts).len() && tickers_view(ts)[i] == x;
            assert(tickers_view(ts.push(t))[i] == x);
        }
    }
}

/// Round trip: when every quote of the response was requested, set
/// matching keeps the whole response — every quote, every field's text,
/// exactly as parsed, in response order.
pub proof fn lemma_set_roundtrip(qs: Seq<QuoteView>, req: Set<Seq<u8>>)
    requires
        forall|i: int| 0 <= i < qs.len() ==> req.contains((#[trigger] qs[i]).symbol),
    ensures
        filter_quotes(qs, req) == qs,
    decreases qs.len(),
{
    if qs.len() > 0 {
        assert(qs.first() == qs[0]);
        assert(forall|i: int| 0 <= i < qs.drop_first().len() ==> #[trigger] qs.drop_first()[i]
            == qs[i + 1]);
        lemma_set_roundtrip(qs.drop_first(), req);
        assert(seq![qs.first()] + qs.drop_first() =~= qs);
    }
}

} // verus!
