//! Character-level text utilities: turning a `&str` into its characters,
//! comparing against literals, splitting on a separator, whitespace
//! tokenisation and trimming.

use vstd::prelude::*;
use vstd::std_specs::iter::IteratorSpec;
use vstd::string::StrSliceExecFns;

verus! {

broadcast use vstd::string::next_postcondition, vstd::string::axiom_spec_iter;

/// The characters of a string, as a vector.
pub fn chars_of(s: &str) -> (r: Vec<char>)
    ensures
        r@ == s@,
{
    let mut it = s.chars();
    let mut out: Vec<char> = Vec::new();
    loop
        invariant
            it.decrease() is Some,
            out@ + it.remaining() == s@,
        ensures
            out@ == s@,
        decreases it.decrease()->0,
    {
        match it.next() {
            Some(c) => out.push(c),
            None => {
                assert(out@ =~= s@);
                break ;
            },
        }
    }
    out
}

/// Characters treated as whitespace when trimming and tokenising bodies.
pub open spec fn is_space(c: char) -> bool {
    c == ' ' || c == '\t' || c == '\n' || c == '\r'
}

fn is_space_c(c: char) -> (r: bool)
    ensures
        r == is_space(c),
{
    c == ' ' || c == '\t' || c == '\n' || c == '\r'
}

/// The views of a sequence of character vectors.
pub open spec fn views_of(vv: Seq<Vec<char>>) -> Seq<Seq<char>> {
    Seq::new(vv.len(), |i: int| vv[i]@)
}

/// Splitting a character sequence on a separator: the parts between the
/// separators, in order, empty parts included.
pub open spec fn spec_split(s: Seq<char>, sep: char) -> Seq<Seq<char>>
    decreases s.len(),
{
    if s.len() == 0 {
        seq![Seq::<char>::empty()]
    } else if s[0] == sep {
        seq![Seq::<char>::empty()] + spec_split(s.skip(1), sep)
    } else {
        let rest = spec_split(s.skip(1), sep);
        seq![seq![s[0]] + rest[0]] + rest.skip(1)
    }
}

pub proof fn lemma_split_nonempty(s: Seq<char>, sep: char)
    ensures
        spec_split(s, sep).len() >= 1,
    decreases s.len(),
{
    if s.len() > 0 {
        lemma_split_nonempty(s.skip(1), sep);
    }
}

fn split_from(v: &[char], from: usize, sep: char) -> (r: Vec<Vec<char>>)
    requires
        from <= v@.len(),
    ensures
        views_of(r@) == spec_split(v@.skip(from as int), sep),
    decreases v@.len() - from,
{
    if from == v.len() {
        let mut r: Vec<Vec<char>> = Vec::new();
        r.push(Vec::new());
        assert(v@.skip(from as int) =~= Seq::<char>::empty());
        assert(views_of(r@) =~~= spec_split(v@.skip(from as int), sep));
        r
    } else if v[from] == sep {
        let mut r = split_from(v, from + 1, sep);
        proof {
            assert(v@.skip(from as int).skip(1) =~= v@.skip(from as int + 1));
        }
        r.insert(0, Vec::new());
        assert(views_of(r@) =~~= spec_split(v@.skip(from as int), sep));
        r
    } else {
        let mut r = split_from(v, from + 1, sep);
        proof {
            assert(v@.skip(from as int).skip(1) =~= v@.skip(from as int + 1));
            lemma_split_nonempty(v@.skip(from as int + 1), sep);
        }
        let mut f = r.remove(0);
        f.insert(0, v[from]);
        r.insert(0, f);
        assert(views_of(r@) =~~= spec_split(v@.skip(from as int), sep));
        r
    }
}

/// Split `v` on the separator character, keeping empty parts.
pub fn split_chars(v: &[char], sep: char) -> (r: Vec<Vec<char>>)
    ensures
        views_of(r@) == spec_split(v@, sep),
{
    let r = split_from(v, 0, sep);
    proof {
        assert(v@.skip(0) =~= v@);
    }
    r
}

/// The whitespace-separated tokens of a character sequence: the maximal runs
/// of non-whitespace characters, in order.
pub open spec fn ws_tokens(s: Seq<char>) -> Seq<Seq<char>>
    decreases s.len(),
{
    if s.len() == 0 {
        Seq::<Seq<char>>::empty()
    } else if is_space(s[0]) {
        ws_tokens(s.skip(1))
    } else if s.len() == 1 || is_space(s[1]) {
        seq![seq![s[0]]] + ws_tokens(s.skip(1))
    } else {
        let rest = ws_tokens(s.skip(1));
        seq![seq![s[0]] + rest[0]] + rest.skip(1)
    }
}

pub proof fn lemma_ws_tokens_nonempty(s: Seq<char>)
    requires
        s.len() > 0,
        !is_space(s[0]),
    ensures
        ws_tokens(s).len() >= 1,
    decreases s.len(),
{
    if s.len() > 1 && !is_space(s[1]) {
        lemma_ws_tokens_nonempty(s.skip(1));
    }
}

fn ws_tokens_from(v: &[char], from: usize) -> (r: Vec<Vec<char>>)
    requires
        from <= v@.len(),
    ensures
        views_of(r@) == ws_tokens(v@.skip(from as int)),
    decreases v@.len() - from,
{
    if from == v.len() {
        let r: Vec<Vec<char>> = Vec::new();
        assert(v@.skip(from as int) =~= Seq::<char>::empty());
        assert(views_of(r@) =~~= ws_tokens(v@.skip(from as int)));
        r
    } else if is_space_c(v[from]) {
        let r = ws_tokens_from(v, from + 1);
        proof {
            assert(v@.skip(from as int).skip(1) =~= v@.skip(from as int + 1));
        }
        r
    } else if from + 1 == v.len() || is_space_c(v[from + 1]) {
        let mut r = ws_tokens_from(v, from + 1);
        proof {
            assert(v@.skip(from as int).skip(1) =~= v@.skip(from as int + 1));
        }
        let mut f: Vec<char> = Vec::new();
        f.push(v[from]);
        r.insert(0, f);
        assert(views_of(r@) =~~= ws_tokens(v@.skip(from as int)));
        r
    } else {
        let mut r = ws_tokens_from(v, from + 1);
        proof {
            assert(v@.skip(from as int).skip(1) =~= v@.skip(from as int + 1));
            assert(v@.skip(from as int + 1)[0] == v@[from as int + 1]);
            lemma_ws_tokens_nonempty(v@.skip(from as int + 1));
        }
        let mut f = r.remove(0);
        f.insert(0, v[from]);
        r.insert(0, f);
        assert(views_of(r@) =~~= ws_tokens(v@.skip(from as int)));
        r
    }
}

/// The whitespace-separated tokens of `v`.
pub fn tokens_of(v: &[char]) -> (r: Vec<Vec<char>>)
    ensures
        views_of(r@) == ws_tokens(v@),
{
    let r = ws_tokens_from(v, 0);
    proof {
        assert(v@.skip(0) =~= v@);
    }
    r
}

/// A character sequence with its leading whitespace removed.
pub open spec fn trim_front(s: Seq<char>) -> Seq<char>
    decreases s.len(),
{
    if s.len() > 0 && is_space(s[0]) {
        trim_front(s.skip(1))
    } else {
        s
    }
}

/// A character sequence with its trailing whitespace removed.
pub open spec fn trim_back(s: Seq<char>) -> Seq<char>
    decreases s.len(),
{
    if s.len() > 0 && is_space(s.last()) {
        trim_back(s.drop_last())
    } else {
        s
    }
}

/// A character sequence with surrounding whitespace removed.
pub open spec fn spec_trim(s: Seq<char>) -> Seq<char> {
    trim_back(trim_front(s))
}

/// Remove surrounding whitespace.
pub fn trim_chars(v: &[char]) -> (r: Vec<char>)
    ensures
        r@ == spec_trim(v@),
{
    proof {
        assert(v@.skip(0) =~= v@);
    }
    let mut a: usize = 0;
    while a < v.len() && is_space_c(v[a])
        invariant
            0 <= a <= v@.len(),
            trim_front(v@) == trim_front(v@.skip(a as int)),
        decreases v@.len() - a,
    {
        proof {
            assert(v@.skip(a as int).skip(1) =~= v@.skip(a as int + 1));
        }
        a = a + 1;
    }
    proof {
        if a < v.len() {
            assert(trim_front(v@.skip(a as int)) == v@.skip(a as int));
        } else {
            assert(v@.skip(a as int) =~= Seq::<char>::empty());
        }
    }
    let ghost t = v@.skip(a as int);
    assert(trim_front(v@) == t);
    let mut b: usize = v.len();
    proof {
        assert(t.take(b - a) =~= t);
    }
    while b > a && is_space_c(v[b - 1])
        invariant
            a <= b <= v@.len(),
            t == v@.skip(a as int),
            trim_back(t) == trim_back(t.take(b - a)),
        decreases b,
    {
        proof {
            assert(t.take(b - a).last() == v@[b as int - 1]);
            assert(t.take(b - a).drop_last() =~= t.take(b - a - 1));
        }
        b = b - 1;
    }
    proof {
        if b > a {
            assert(t.take(b - a).last() == v@[b as int - 1]);
            assert(trim_back(t.take(b - a)) == t.take(b - a));
        } else {
            assert(t.take(0) =~= Seq::<char>::empty());
        }
    }
    assert(spec_trim(v@) == t.take(b - a));
    let mut out: Vec<char> = Vec::new();
    let mut k: usize = a;
    while k < b
        invariant
            a <= k <= b <= v@.len(),
            t == v@.skip(a as int),
            out@ == t.take(k - a),
        decreases b - k,
    {
        out.push(v[k]);
        proof {
            assert(out@ =~= t.take(k + 1 - a as int));
        }
        k = k + 1;
    }
    out
}

/// Whether `s` begins with the prefix `p`.
pub open spec fn spec_starts_with(s: Seq<char>, p: Seq<char>) -> bool {
    s.len() >= p.len() && s.take(p.len() as int) == p
}

/// Whether the characters `v` are exactly the characters of `lit`.
pub fn eq_lit(v: &[char], lit: &str) -> (r: bool)
    ensures
        r == (v@ == lit@),
{
    let n = lit.unicode_len();
    if v.len() != n {
        return false;
    }
    let mut i: usize = 0;
    while i < n
        invariant
            0 <= i <= n,
            n == lit@.len(),
            v@.len() == n,
            forall|k: int| 0 <= k < i ==> v@[k] == lit@[k],
        decreases n - i,
    {
        if v[i] != lit.get_char(i) {
            return false;
        }
        i = i + 1;
    }
    proof {
        assert(v@ =~= lit@);
    }
    true
}

/// Whether the characters `v` begin with the characters of `lit`.
pub fn starts_with_lit(v: &[char], lit: &str) -> (r: bool)
    ensures
        r == spec_starts_with(v@, lit@),
{
    let n = lit.unicode_len();
    if v.len() < n {
        return false;
    }
    let mut i: usize = 0;
    while i < n
        invariant
            0 <= i <= n,
            n == lit@.len(),
            v@.len() >= n,
            forall|k: int| 0 <= k < i ==> v@[k] == lit@[k],
        decreases n - i,
    {
        if v[i] != lit.get_char(i) {
            proof {
                assert(v@.take(n as int)[i as int] != lit@[i as int]);
            }
            return false;
        }
        i = i + 1;
    }
    proof {
        assert(v@.take(n as int) =~= lit@);
    }
    true
}

/// Relies on `String: FromIterator<char>`: collecting characters yields the
/// string of exactly those characters, in order.
#[verifier::external_body]
pub(crate) fn string_of(v: &Vec<char>) -> (r: String)
    ensures
        r@ == v@,
{
    v.iter().collect()
}

/// Splitting a sequence that holds no separator yields that sequence alone.
pub proof fn lemma_split_no_sep(s: Seq<char>, sep: char)
    requires
        forall|i: int| 0 <= i < s.len() ==> s[i] != sep,
    ensures
        spec_split(s, sep) == seq![s],
    decreases s.len(),
{
    if s.len() == 0 {
        assert(s =~= Seq::<char>::empty());
        assert(spec_split(s, sep) =~~= seq![s]);
    } else {
        assert(forall|i: int| 0 <= i < s.skip(1).len() ==> s.skip(1)[i] == s[i + 1]);
        lemma_split_no_sep(s.skip(1), sep);
        assert(seq![s[0]] + s.skip(1) =~= s);
        assert(spec_split(s, sep) =~~= seq![s]);
    }
}

/// Splitting `a + sep + s` where `a` holds no separator yields `a` followed
/// by the parts of `s`.
pub proof fn lemma_split_prepend(a: Seq<char>, s: Seq<char>, sep: char)
    requires
        forall|i: int| 0 <= i < a.len() ==> a[i] != sep,
    ensures
        spec_split(a + seq![sep] + s, sep) == seq![a] + spec_split(s, sep),
    decreases a.len(),
{
    let t = a + seq![sep] + s;
    lemma_split_nonempty(s, sep);
    if a.len() == 0 {
        assert(t =~= seq![sep] + s);
        assert(t[0] == sep);
        assert(t.skip(1) =~= s);
        assert(a =~= Seq::<char>::empty());
        assert(spec_split(t, sep) =~~= seq![a] + spec_split(s, sep));
    } else {
        assert(t[0] == a[0]);
        assert(forall|i: int| 0 <= i < a.skip(1).len() ==> a.skip(1)[i] == a[i + 1]);
        lemma_split_prepend(a.skip(1), s, sep);
        assert(t.skip(1) =~= a.skip(1) + seq![sep] + s);
        let rest = spec_split(t.skip(1), sep);
        assert(rest == seq![a.skip(1)] + spec_split(s, sep));
        assert(rest[0] == a.skip(1));
        assert(rest.skip(1) =~~= spec_split(s, sep));
        assert(seq![a[0]] + a.skip(1) =~= a);
        assert(spec_split(t, sep) =~~= seq![a] + spec_split(s, sep));
    }
}

/// A non-empty sequence without whitespace is its own single token.
pub proof fn lemma_ws_tokens_single(t: Seq<char>)
    requires
        t.len() > 0,
        forall|i: int| 0 <= i < t.len() ==> !is_space(t[i]),
    ensures
        ws_tokens(t) == seq![t],
    decreases t.len(),
{
    if t.len() == 1 {
        assert(t.skip(1) =~= Seq::<char>::empty());
        assert(ws_tokens(t.skip(1)) =~~= Seq::<Seq<char>>::empty());
        assert(seq![t[0]] =~= t);
        assert(ws_tokens(t) =~~= seq![t]);
    } else {
        assert(forall|i: int| 0 <= i < t.skip(1).len() ==> t.skip(1)[i] == t[i + 1]);
        lemma_ws_tokens_single(t.skip(1));
        assert(seq![t[0]] + t.skip(1) =~= t);
        assert(ws_tokens(t) =~~= seq![t]);
    }
}

/// Two non-empty whitespace-free sequences joined by a single space are
/// exactly the two tokens of the joined text.
pub proof fn lemma_ws_tokens_pair(a: Seq<char>, t: Seq<char>)
    requires
        a.len() > 0,
        t.len() > 0,
        forall|i: int| 0 <= i < a.len() ==> !is_space(a[i]),
        forall|i: int| 0 <= i < t.len() ==> !is_space(t[i]),
    ensures
        ws_tokens(a + seq![' '] + t) == seq![a, t],
    decreases a.len(),
{
    let s = a + seq![' '] + t;
    if a.len() == 1 {
        assert(s[0] == a[0]);
        assert(s[1] == ' ');
        assert(s.skip(1) =~= seq![' '] + t);
        assert((seq![' '] + t)[0] == ' ');
        assert((seq![' '] + t).skip(1) =~= t);
        lemma_ws_tokens_single(t);
        assert(ws_tokens(seq![' '] + t) == ws_tokens(t));
        assert(ws_tokens(s.skip(1)) == seq![t]);
        assert(seq![a[0]] =~= a);
        assert(ws_tokens(s) =~~= seq![a, t]);
    } else {
        assert(s[0] == a[0]);
        assert(s[1] == a[1]);
        assert(forall|i: int| 0 <= i < a.skip(1).len() ==> a.skip(1)[i] == a[i + 1]);
        lemma_ws_tokens_pair(a.skip(1), t);
        assert(s.skip(1) =~= a.skip(1) + seq![' '] + t);
        let rest = ws_tokens(s.skip(1));
        assert(rest == seq![a.skip(1), t]);
        assert(rest[0] == a.skip(1));
        assert(rest.skip(1) =~~= seq![t]);
        assert(seq![s[0]] + a.skip(1) =~= a);
        assert(ws_tokens(s) =~~= seq![a, t]);
    }
}

} // verus!
