//! CSS custom-property declaration lists, as the page template consumes them.
use vstd::prelude::*;
use crate::text::{is_whitespace, is_ws};

verus! {

/// A declaration `name:value;`, the name carrying its leading `--`.
pub open spec fn declaration_text(d: (Seq<char>, Seq<char>)) -> Seq<char> {
    d.0 + seq![':'] + d.1 + seq![';']
}

/// The declarations `ds`, each followed by `;`, one after the other.
pub open spec fn declarations_text(ds: Seq<(Seq<char>, Seq<char>)>) -> Seq<char>
    decreases ds.len(),
{
    if ds.len() == 0 {
        Seq::empty()
    } else {
        declarations_text(ds.drop_last()) + declaration_text(ds.last())
    }
}

/// The property names of `ds`, in order.
pub open spec fn declared_names(ds: Seq<(Seq<char>, Seq<char>)>) -> Seq<Seq<char>> {
    ds.map_values(|d: (Seq<char>, Seq<char>)| d.0)
}

/// The character view of a list of `(name, value)` pairs.
pub open spec fn declaration_views(ds: Seq<(String, String)>) -> Seq<(Seq<char>, Seq<char>)> {
    ds.map_values(|d: (String, String)| (d.0@, d.1@))
}

/// Renders `name:value;` for each pair of `ds`, in order.
pub fn render_declarations(ds: &Vec<(String, String)>) -> (r: String)
    ensures
        r@ == declarations_text(declaration_views(ds@)),
{
    let mut r = String::new();
    let n: usize = ds.len();
    let mut i: usize = 0;
    while i < n
        invariant
            i <= n == ds@.len(),
            r@ == declarations_text(declaration_views(ds@.take(i as int))),
        decreases n - i,
    {
        let d = &ds[i];
        r.append(d.0.as_str());
        crate::text::push_char(&mut r, ':');
        r.append(d.1.as_str());
        crate::text::push_char(&mut r, ';');
        proof {
            let next = declaration_views(ds@.take(i + 1));
            assert(next.drop_last() == declaration_views(ds@.take(i as int)));
            assert(next.last() == (ds@[i as int].0@, ds@[i as int].1@));
        }
        i = i + 1;
    }
    assert(ds@.take(n as int) == ds@);
    r
}

/// Position `i` of `s` may begin a declaration: back to the previous `;`, or
/// to the start, only whitespace precedes it.
pub open spec fn at_declaration_start(s: Seq<char>, i: int) -> bool
    decreases i,
{
    if i <= 0 {
        true
    } else {
        s[i - 1] == ';' || (is_ws(s[i - 1]) && at_declaration_start(s, i - 1))
    }
}

/// `name` stands at position `i` of `s`, followed directly by `:`.
pub open spec fn name_at(s: Seq<char>, i: int, name: Seq<char>) -> bool {
    &&& 0 <= i
    &&& i + name.len() < s.len()
    &&& s.subrange(i, i + name.len()) == name
    &&& s[i + name.len()] == ':'
}

/// `s` declares the property `name`: some declaration of `s` begins with
/// `name:` (after optional whitespace).
pub open spec fn declares(s: Seq<char>, name: Seq<char>) -> bool {
    exists|i: int| 0 <= i <= s.len() && at_declaration_start(s, i) && #[trigger] name_at(s, i, name)
}

/// The declarations of `ds` whose properties `s` does not declare, in order.
pub open spec fn undeclared(ds: Seq<(Seq<char>, Seq<char>)>, s: Seq<char>) -> Seq<(Seq<char>, Seq<char>)>
    decreases ds.len(),
{
    if ds.len() == 0 {
        Seq::empty()
    } else {
        let r = undeclared(ds.drop_last(), s);
        if declares(s, ds.last().0) {
            r
        } else {
            r.push(ds.last())
        }
    }
}

fn name_at_exec(s: &Vec<char>, i: usize, name: &Vec<char>) -> (b: bool)
    requires
        i <= s.len(),
    ensures
        b == name_at(s@, i as int, name@),
{
    if name.len() >= s.len() - i {
        return false;
    }
    let n: usize = name.len();
    let mut k: usize = 0;
    while k < n
        invariant
            k <= n == name@.len(),
            i + n < s.len(),
            forall|m: int| 0 <= m < k ==> s@[i + m] == #[trigger] name@[m],
        decreases n - k,
    {
        if s[i + k] != name[k] {
            assert(s@.subrange(i as int, i + n)[k as int] != name@[k as int]);
            return false;
        }
        k = k + 1;
    }
    assert(s@.subrange(i as int, i + n) == name@);
    s[i + n] == ':'
}

/// Whether `s` declares the property `name`.
pub fn declares_property(s: &Vec<char>, name: &str) -> (b: bool)
    ensures
        b == declares(s@, name@),
{
    let name_chars = crate::text::chars_of(name);
    let n: usize = s.len();
    let mut start = true;
    let mut i: usize = 0;
    while i < n
        invariant
            i <= n == s@.len(),
            name_chars@ == name@,
            start == at_declaration_start(s@, i as int),
            forall|j: int| 0 <= j < i ==> !(at_declaration_start(s@, j) && #[trigger] name_at(s@, j, name@)),
        decreases n - i,
    {
        if start && name_at_exec(s, i, &name_chars) {
            assert(name_at(s@, i as int, name@));
            return true;
        }
        let c = s[i];
        start = c == ';' || (is_whitespace(c) && start);
        i = i + 1;
    }
    assert forall|j: int| 0 <= j <= s@.len() && at_declaration_start(s@, j) implies !#[trigger] name_at(
        s@,
        j,
        name@,
    ) by {
        if j < n {
        }
    }
    false
}

/// The pairs of `ds` whose properties `s` does not declare, in order.
pub fn undeclared_declarations(ds: &Vec<(String, String)>, s: &str) -> (r: Vec<(String, String)>)
    ensures
        declaration_views(r@) == undeclared(declaration_views(ds@), s@),
{
    let chars = crate::text::chars_of(s);
    let mut r: Vec<(String, String)> = Vec::new();
    let n: usize = ds.len();
    let mut i: usize = 0;
    while i < n
        invariant
            i <= n == ds@.len(),
            chars@ == s@,
            declaration_views(r@) == undeclared(declaration_views(ds@.take(i as int)), s@),
        decreases n - i,
    {
        let d = &ds[i];
        let ghost before = r@;
        proof {
            let next = declaration_views(ds@.take(i + 1));
            assert(next.drop_last() == declaration_views(ds@.take(i as int)));
            assert(next.last() == (ds@[i as int].0@, ds@[i as int].1@));
        }
        if !declares_property(&chars, d.0.as_str()) {
            r.push((d.0.clone(), d.1.clone()));
            assert(declaration_views(r@) == declaration_views(before).push((d.0@, d.1@)));
        }
        i = i + 1;
    }
    assert(ds@.take(n as int) == ds@);
    r
}

pub proof fn lemma_declarations_text_append(a: Seq<(Seq<char>, Seq<char>)>, b: Seq<(Seq<char>, Seq<char>)>)
    ensures
        declarations_text(a + b) == declarations_text(a) + declarations_text(b),
    decreases b.len(),
{
    if b.len() == 0 {
        assert(a + b == a);
    } else {
        lemma_declarations_text_append(a, b.drop_last());
        assert((a + b).drop_last() == a + b.drop_last());
        assert((a + b).last() == b.last());
    }
}

proof fn lemma_at_start_prefix(x: Seq<char>, y: Seq<char>, i: int)
    requires
        0 <= i <= x.len(),
    ensures
        at_declaration_start(x + y, i) == at_declaration_start(x, i),
    decreases i,
{
    if i > 0 {
        assert((x + y)[i - 1] == x[i - 1]);
        lemma_at_start_prefix(x, y, i - 1);
    }
}

proof fn lemma_at_start_shift(p: Seq<char>, y: Seq<char>, i: int)
    requires
        0 <= i <= y.len(),
        p.len() == 0 || p.last() == ';',
    ensures
        at_declaration_start(p + y, p.len() + i) == at_declaration_start(y, i),
    decreases i,
{
    if i > 0 {
        assert((p + y)[p.len() + i - 1] == y[i - 1]);
        lemma_at_start_shift(p, y, i - 1);
    } else if p.len() > 0 {
        assert((p + y)[p.len() - 1] == p.last());
    }
}

/// What declares a property still declares it with text after it.
pub proof fn lemma_declares_extend(x: Seq<char>, y: Seq<char>, name: Seq<char>)
    requires
        declares(x, name),
    ensures
        declares(x + y, name),
{
    let i = choose|i: int| 0 <= i <= x.len() && at_declaration_start(x, i) && #[trigger] name_at(x, i, name);
    lemma_at_start_prefix(x, y, i);
    assert((x + y).subrange(i, i + name.len()) == x.subrange(i, i + name.len()));
    assert((x + y)[i + name.len()] == x[i + name.len()]);
    assert(name_at(x + y, i, name));
}

/// What declares a property still declares it after complete declarations.
pub proof fn lemma_declares_after(p: Seq<char>, y: Seq<char>, name: Seq<char>)
    requires
        declares(y, name),
        p.len() == 0 || p.last() == ';',
    ensures
        declares(p + y, name),
{
    let i = choose|i: int| 0 <= i <= y.len() && at_declaration_start(y, i) && #[trigger] name_at(y, i, name);
    lemma_at_start_shift(p, y, i);
    assert((p + y).subrange(p.len() + i, p.len() + i + name.len()) == y.subrange(i, i + name.len()));
    assert((p + y)[p.len() + i + name.len()] == y[i + name.len()]);
    assert(name_at(p + y, p.len() + i, name));
}

/// Written-out declarations end with `;`.
pub proof fn lemma_declarations_text_ends(ds: Seq<(Seq<char>, Seq<char>)>)
    ensures
        declarations_text(ds).len() == 0 || declarations_text(ds).last() == ';',
{
}

/// The written-out declarations `ds` declare each of their properties.
pub proof fn lemma_declarations_declare(ds: Seq<(Seq<char>, Seq<char>)>, k: int)
    requires
        0 <= k < ds.len(),
    ensures
        declares(declarations_text(ds), ds[k].0),
{
    let a = ds.take(k);
    let b = ds.skip(k);
    assert(ds == a + b);
    lemma_declarations_text_append(a, b);
    let one = seq![ds[k]];
    let rest = ds.skip(k + 1);
    assert(b == one + rest);
    lemma_declarations_text_append(one, rest);
    assert(one.drop_last() == Seq::<(Seq<char>, Seq<char>)>::empty());
    assert(declarations_text(one) == declaration_text(ds[k])) by {
        assert(declarations_text(one.drop_last()) == Seq::<char>::empty());
        assert(one.last() == ds[k]);
        assert(Seq::<char>::empty() + declaration_text(ds[k]) == declaration_text(ds[k]));
    }
    let d = declaration_text(ds[k]);
    let n = ds[k].0;
    assert(d.subrange(0, n.len() as int) == n);
    assert(d[n.len() as int] == ':');
    assert(declares(d, n)) by {
        assert(at_declaration_start(d, 0));
        assert(name_at(d, 0, n));
    }
    lemma_declares_extend(d, declarations_text(rest), n);
    lemma_declarations_text_ends(a);
    lemma_declares_after(declarations_text(a), d + declarations_text(rest), n);
    assert(declarations_text(ds) == declarations_text(a) + (d + declarations_text(rest)));
}

/// When `s` declares every property of `ds`, none is left undeclared.
pub proof fn lemma_undeclared_empty(ds: Seq<(Seq<char>, Seq<char>)>, s: Seq<char>)
    requires
        forall|k: int| 0 <= k < ds.len() ==> declares(s, #[trigger] ds[k].0),
    ensures
        undeclared(ds, s).len() == 0,
    decreases ds.len(),
{
    if ds.len() > 0 {
        assert forall|k: int| 0 <= k < ds.drop_last().len() implies declares(s, #[trigger] ds.drop_last()[k].0) by {
            assert(ds.drop_last()[k] == ds[k]);
        }
        lemma_undeclared_empty(ds.drop_last(), s);
        assert(declares(s, ds[ds.len() - 1].0));
    }
}

/// A property of `ds` that `s` does not declare keeps its declaration.
pub proof fn lemma_undeclared_keeps(ds: Seq<(Seq<char>, Seq<char>)>, s: Seq<char>, k: int)
    requires
        0 <= k < ds.len(),
        !declares(s, ds[k].0),
    ensures
        undeclared(ds, s).contains(ds[k]),
    decreases ds.len(),
{
    if k < ds.len() - 1 {
        assert(ds.drop_last()[k] == ds[k]);
        lemma_undeclared_keeps(ds.drop_last(), s, k);
        let r = undeclared(ds.drop_last(), s);
        let j = choose|j: int| 0 <= j < r.len() && r[j] == ds[k];
        if !declares(s, ds.last().0) {
            assert(r.push(ds.last())[j] == ds[k]);
        }
    } else {
        let r = undeclared(ds.drop_last(), s);
        assert(r.push(ds.last())[r.len() as int] == ds[k]);
    }
}

/// Every property of `ds` is declared by the undeclared ones of `ds`
/// followed by `s`.
pub proof fn lemma_undeclared_then_given_declare_all(ds: Seq<(Seq<char>, Seq<char>)>, s: Seq<char>, k: int)
    requires
        0 <= k < ds.len(),
    ensures
        declares(declarations_text(undeclared(ds, s)) + s, ds[k].0),
{
    let u = undeclared(ds, s);
    lemma_declarations_text_ends(u);
    if declares(s, ds[k].0) {
        lemma_declares_after(declarations_text(u), s, ds[k].0);
    } else {
        lemma_undeclared_keeps(ds, s, k);
        let j = choose|j: int| 0 <= j < u.len() && u[j] == ds[k];
        lemma_declarations_declare(u, j);
        lemma_declares_extend(declarations_text(u), s, ds[k].0);
    }
}

/// Written-out declarations declare all their own properties.
pub proof fn lemma_declarations_declare_themselves(ds: Seq<(Seq<char>, Seq<char>)>)
    ensures
        undeclared(ds, declarations_text(ds)).len() == 0,
{
    let d = declarations_text(ds);
    assert forall|k: int| 0 <= k < ds.len() implies declares(d, #[trigger] ds[k].0) by {
        lemma_declarations_declare(ds, k);
    }
    lemma_undeclared_empty(ds, d);
}

/// Written-out declarations begin with their first name.
pub proof fn lemma_declarations_text_first(ds: Seq<(Seq<char>, Seq<char>)>)
    requires
        ds.len() > 0,
        ds[0].0.len() > 0,
    ensures
        declarations_text(ds).len() > 0,
        declarations_text(ds)[0] == ds[0].0[0],
{
    let first = seq![ds[0]];
    let rest = ds.skip(1);
    assert(ds == first + rest);
    lemma_declarations_text_append(first, rest);
    assert(first.drop_last() == Seq::<(Seq<char>, Seq<char>)>::empty());
    let t = declaration_text(ds[0]);
    assert(declarations_text(first) == t) by {
        assert(declarations_text(first.drop_last()) == Seq::<char>::empty());
        assert(first.last() == ds[0]);
        assert(Seq::<char>::empty() + t == t);
    }
    assert(t[0] == ds[0].0[0]);
    assert((t + declarations_text(rest))[0] == t[0]);
}

} // verus!
