//! The quote engine: quotes, the usable pool, and picking.
use vstd::prelude::*;
use crate::random::{random_index, thread_rng};
use crate::text::{all_ws, is_blank};

verus! {

/// A single quote with its attributed source.
#[derive(Debug)]
pub struct Quote {
    pub text: String,
    pub author: String,
}

impl Clone for Quote {
    fn clone(&self) -> (r: Self)
        ensures
            r == *self,
    {
        Quote { text: self.text.clone(), author: self.author.clone() }
    }
}

impl Quote {
    /// Trivial validity check used by the loader's filter: the text is
    /// nothing but whitespace.
    pub fn is_empty(&self) -> (b: bool)
        ensures
            b == all_ws(self.text@),
    {
        is_blank(self.text.as_str())
    }
}

/// The contents of a quotes file.
#[derive(Debug, Clone)]
pub struct QuotesFile {
    pub quotes: Vec<Quote>,
}

/// How the loader picks a quote.
#[derive(Debug, Clone, Copy)]
pub enum Picker {
    Random,
}

impl Default for Picker {
    fn default() -> (p: Self)
        ensures
            p == Picker::Random,
    {
        Picker::Random
    }
}

/// The state the quote engine produces for the rest of the app.
#[derive(Debug)]
pub struct QuoteSelection {
    pub quote: Quote,
}

impl Clone for QuoteSelection {
    fn clone(&self) -> (r: Self)
        ensures
            r == *self,
    {
        QuoteSelection { quote: self.quote.clone() }
    }
}

/// The quotes file read when the config names none.
pub fn default_quotes_path() -> (p: &'static str)
    ensures
        p@ == "quotes.json"@,
{
    "quotes.json"
}

/// The usable quotes of `qs`, in order: those whose text is not blank.
pub open spec fn usable(qs: Seq<Quote>) -> Seq<Quote>
    decreases qs.len(),
{
    if qs.len() == 0 {
        Seq::empty()
    } else {
        let r = usable(qs.drop_last());
        if all_ws(qs.last().text@) {
            r
        } else {
            r.push(qs.last())
        }
    }
}

/// The error for a quotes source that holds no usable quote.
pub open spec fn no_usable_quotes_message(source: Seq<char>) -> Seq<char> {
    source + " contained no usable quotes."@
}

/// The non-empty quotes of a quotes file read from `source`, in file order;
/// an error naming `source` when there are none.
pub fn usable_quotes(file: &QuotesFile, source: &str) -> (r: Result<Vec<Quote>, String>)
    ensures
        r is Ok <==> usable(file.quotes@).len() > 0,
        r matches Ok(v) ==> v@ == usable(file.quotes@),
        r matches Err(e) ==> e@ == no_usable_quotes_message(source@),
{
    let n: usize = file.quotes.len();
    let mut out: Vec<Quote> = Vec::new();
    let mut i: usize = 0;
    while i < n
        invariant
            i <= n == file.quotes@.len(),
            out@ == usable(file.quotes@.take(i as int)),
        decreases n - i,
    {
        let q = &file.quotes[i];
        assert(file.quotes@.take(i + 1).drop_last() == file.quotes@.take(i as int));
        if !q.is_empty() {
            out.push(q.clone());
        }
        i = i + 1;
    }
    assert(file.quotes@.take(n as int) == file.quotes@);
    if out.len() == 0 {
        let mut e = String::from_str(source);
        e.append(" contained no usable quotes.");
        Err(e)
    } else {
        Ok(out)
    }
}

/// Every usable quote has a non-blank text and comes from the pool, and
/// every quote of the pool with a non-blank text is usable.
pub proof fn lemma_usable_quotes(qs: Seq<Quote>)
    ensures
        forall|i: int| 0 <= i < usable(qs).len() ==> !all_ws(#[trigger] usable(qs)[i].text@),
        forall|i: int| 0 <= i < usable(qs).len() ==> qs.contains(#[trigger] usable(qs)[i]),
        forall|i: int| 0 <= i < qs.len() && !all_ws(#[trigger] qs[i].text@) ==> usable(qs).contains(qs[i]),
    decreases qs.len(),
{
    if qs.len() > 0 {
        let d = qs.drop_last();
        lemma_usable_quotes(d);
        assert forall|i: int| 0 <= i < usable(qs).len() implies qs.contains(#[trigger] usable(qs)[i]) by {
            if i < usable(d).len() {
                let j = choose|j: int| 0 <= j < d.len() && d[j] == usable(d)[i];
                assert(qs[j] == d[j]);
            } else {
                assert(qs[qs.len() - 1] == qs.last());
            }
        }
        assert forall|i: int| 0 <= i < qs.len() && !all_ws(#[trigger] qs[i].text@) implies usable(qs).contains(qs[i]) by {
            if i < qs.len() - 1 {
                assert(qs[i] == d[i]);
                let j = choose|j: int| 0 <= j < usable(d).len() && usable(d)[j] == d[i];
                assert(usable(qs)[j] == usable(d)[j]);
            } else {
                assert(usable(qs)[usable(qs).len() - 1] == qs.last());
            }
        }
    }
}

/// The selection of `quotes[index]`.
pub fn selection_at(quotes: &Vec<Quote>, index: usize) -> (s: QuoteSelection)
    requires
        index < quotes.len(),
    ensures
        s.quote == quotes@[index as int],
{
    QuoteSelection { quote: quotes[index].clone() }
}

/// Pick a single quote of the pool using `picker`; Random draws it
/// uniformly.
pub fn pick_quote(quotes: &Vec<Quote>, picker: Picker) -> (s: QuoteSelection)
    requires
        quotes.len() > 0,
    ensures
        quotes@.contains(s.quote),
{
    let chosen: usize = match picker {
        Picker::Random => {
            let mut rng = thread_rng();
            random_index(&mut rng, quotes.len())
        },
    };
    let s = selection_at(quotes, chosen);
    assert(quotes@[chosen as int] == s.quote);
    s
}

/// `p` orders `0..n`: each of them once.
pub open spec fn is_permutation(p: Seq<usize>, n: nat) -> bool {
    &&& p.len() == n
    &&& forall|i: int| 0 <= i < n ==> #[trigger] p[i] < n
    &&& forall|i: int, j: int| 0 <= i < n && 0 <= j < n && i != j ==> #[trigger] p[i] != #[trigger] p[j]
}

/// One Fisher-Yates step: entries `i` and `j` of the order trade places,
/// which keeps it an order of `0..n`.
pub fn swap_step(p: &mut Vec<usize>, i: usize, j: usize)
    requires
        i < old(p).len(),
        j < old(p).len(),
    ensures
        final(p)@ == old(p)@.update(i as int, old(p)@[j as int]).update(j as int, old(p)@[i as int]),
        is_permutation(old(p)@, old(p)@.len()) ==> is_permutation(final(p)@, old(p)@.len()),
{
    let a: usize = p[i];
    let b: usize = p[j];
    p.set(i, b);
    p.set(j, a);
}

/// A uniformly shuffled order of `0..n` (Fisher-Yates).
pub fn shuffled_order(n: usize) -> (p: Vec<usize>)
    ensures
        is_permutation(p@, n as nat),
{
    let mut p: Vec<usize> = Vec::new();
    let mut k: usize = 0;
    while k < n
        invariant
            k <= n,
            p@.len() == k,
            forall|i: int| 0 <= i < k ==> #[trigger] p@[i] == i,
        decreases n - k,
    {
        p.push(k);
        k = k + 1;
    }
    let mut rng = thread_rng();
    let mut i: usize = n;
    while i > 1
        invariant
            i <= n,
            is_permutation(p@, n as nat),
        decreases i,
    {
        i = i - 1;
        let j: usize = random_index(&mut rng, i + 1);
        swap_step(&mut p, i, j);
    }
    p
}

/// `count` selections that walk `order` round and round: the `k`-th is
/// `quotes[order[k % n]]`.
pub fn cycle_selections(quotes: &Vec<Quote>, order: &Vec<usize>, count: usize) -> (r: Vec<
    QuoteSelection,
>)
    requires
        order.len() == quotes.len(),
        quotes.len() > 0 || count == 0,
        forall|i: int| 0 <= i < order.len() ==> #[trigger] order@[i] < quotes.len(),
    ensures
        r@.len() == count,
        forall|k: int|
            0 <= k < count ==> #[trigger] r@[k].quote == quotes@[order@[k % quotes.len() as int] as int],
{
    let n: usize = quotes.len();
    let mut r: Vec<QuoteSelection> = Vec::new();
    let mut idx: usize = 0;
    while idx < count
        invariant
            idx <= count,
            n == quotes.len() == order.len(),
            n > 0 || count == 0,
            forall|i: int| 0 <= i < order.len() ==> #[trigger] order@[i] < quotes.len(),
            r@.len() == idx,
            forall|k: int|
                0 <= k < idx ==> #[trigger] r@[k].quote == quotes@[order@[k % n as int] as int],
        decreases count - idx,
    {
        let pos: usize = order[idx % n];
        r.push(QuoteSelection { quote: quotes[pos].clone() });
        idx = idx + 1;
    }
    r
}

/// Pick `count` random quotes, one per monitor: the pool is shuffled and
/// then walked round, so the picks come from distinct entries while the
/// pool lasts and cycle through it again after (duplicates only then).
pub fn pick_many(quotes: &Vec<Quote>, count: usize) -> (r: Vec<QuoteSelection>)
    requires
        quotes.len() > 0 || count == 0,
    ensures
        r@.len() == count,
        exists|p: Seq<usize>|
            is_permutation(p, quotes.len() as nat) && forall|k: int|
                0 <= k < count ==> #[trigger] r@[k].quote == quotes@[p[k % quotes.len() as int] as int],
{
    let order = shuffled_order(quotes.len());
    let r = cycle_selections(quotes, &order, count);
    assert(is_permutation(order@, quotes.len() as nat));
    r
}

/// Picks made by walking a shuffled pool round: while the pool lasts, no
/// two picks come from the same entry, and past it each pick repeats the
/// one made a pool's length earlier.
pub proof fn lemma_picks_cycle(quotes: Seq<Quote>, p: Seq<usize>, picks: Seq<Quote>)
    requires
        quotes.len() > 0,
        is_permutation(p, quotes.len()),
        forall|k: int| 0 <= k < picks.len() ==> #[trigger] picks[k] == quotes[p[k % quotes.len() as int] as int],
    ensures
        forall|k1: int, k2: int|
            0 <= k1 < k2 < picks.len() && k2 < quotes.len() ==> p[k1] != p[k2],
        forall|k: int|
            0 <= k && k + quotes.len() < picks.len() ==> #[trigger] picks[k + quotes.len()] == picks[k],
{
    let n: int = quotes.len() as int;
    assert forall|k: int| 0 <= k && k + quotes.len() < picks.len() implies #[trigger] picks[k + quotes.len()] == picks[k] by {
        assert((k + n) % n == k % n) by (nonlinear_arith)
            requires n > 0, k >= 0;
        assert(picks[k + n] == quotes[p[(k + n) % n] as int]);
    }
}

/// The quote shown when no quote can be loaded.
pub open spec fn fallback_quote_text() -> Seq<char> {
    "System online \u{2014} awaiting quote feed."@
}

/// `count` copies of the fallback selection.
pub fn fallback_selections(count: usize) -> (r: Vec<QuoteSelection>)
    ensures
        r@.len() == count,
        forall|k: int| 0 <= k < count ==> #[trigger] r@[k].quote.text@ == fallback_quote_text()
            && r@[k].quote.author@ == "bspwm-cyberquote"@,
{
    let mut r: Vec<QuoteSelection> = Vec::new();
    let mut k: usize = 0;
    while k < count
        invariant
            k <= count,
            r@.len() == k,
            forall|i: int| 0 <= i < k ==> #[trigger] r@[i].quote.text@ == fallback_quote_text()
                && r@[i].quote.author@ == "bspwm-cyberquote"@,
        decreases count - k,
    {
        let quote = Quote {
            text: String::from_str("System online \u{2014} awaiting quote feed."),
            author: String::from_str("bspwm-cyberquote"),
        };
        r.push(QuoteSelection { quote });
        k = k + 1;
    }
    r
}

} // verus!
