//! Splitting a line into tokens on runs of ASCII whitespace.
use vstd::prelude::*;

verus! {

broadcast use vstd::string::group_string_axioms;

/// ASCII whitespace: space, tab, line feed, form feed and carriage return.
pub open spec fn is_ascii_ws(c: char) -> bool {
    c == ' ' || c == '\t' || c == '\n' || c == '\x0C' || c == '\r'
}

/// The length of the run of non-whitespace characters that starts `s`.
pub open spec fn word_len(s: Seq<char>) -> nat
    decreases s.len(),
{
    if s.len() == 0 || is_ascii_ws(s[0]) {
        0
    } else {
        1 + word_len(s.drop_first())
    }
}

/// The maximal runs of non-whitespace characters of `s`, in order.
pub open spec fn tokens(s: Seq<char>) -> Seq<Seq<char>>
    decreases s.len()
    via tokens_decreases
{
    if s.len() == 0 {
        seq![]
    } else if is_ascii_ws(s[0]) {
        tokens(s.drop_first())
    } else {
        let n = word_len(s);
        seq![s.take(n as int)] + tokens(s.skip(n as int))
    }
}

#[via_fn]
proof fn tokens_decreases(s: Seq<char>) {
    lemma_word_len_bound(s);
}

/// Every character of `w` is ASCII whitespace.
pub open spec fn all_ws(w: Seq<char>) -> bool {
    forall|i: int| 0 <= i < w.len() ==> is_ascii_ws(#[trigger] w[i])
}

/// No character of `t` is ASCII whitespace.
pub open spec fn no_ws(t: Seq<char>) -> bool {
    forall|i: int| 0 <= i < t.len() ==> !is_ascii_ws(#[trigger] t[i])
}

/// Leading whitespace contributes no token.
pub proof fn lemma_tokens_skip_ws(w: Seq<char>, s: Seq<char>)
    requires
        all_ws(w),
    ensures
        tokens(w + s) == tokens(s),
    decreases w.len(),
{
    if w.len() == 0 {
        assert(w + s =~= s);
    } else {
        assert((w + s)[0] == w[0]);
        assert((w + s).drop_first() =~= w.drop_first() + s);
        assert forall|i: int| 0 <= i < w.drop_first().len() implies is_ascii_ws(
            #[trigger] w.drop_first()[i],
        ) by {
            assert(w.drop_first()[i] == w[i + 1]);
        }
        lemma_tokens_skip_ws(w.drop_first(), s);
    }
}

proof fn lemma_word_len_concat(t: Seq<char>, s: Seq<char>)
    requires
        no_ws(t),
        s.len() == 0 || is_ascii_ws(s[0]),
    ensures
        word_len(t + s) == t.len(),
    decreases t.len(),
{
    if t.len() == 0 {
        assert(t + s =~= s);
    } else {
        assert((t + s)[0] == t[0]);
        assert((t + s).drop_first() =~= t.drop_first() + s);
        assert forall|i: int| 0 <= i < t.drop_first().len() implies !is_ascii_ws(
            #[trigger] t.drop_first()[i],
        ) by {
            assert(t.drop_first()[i] == t[i + 1]);
        }
        lemma_word_len_concat(t.drop_first(), s);
    }
}

/// A run of non-whitespace followed by whitespace or the end is one token.
pub proof fn lemma_tokens_word(t: Seq<char>, s: Seq<char>)
    requires
        t.len() > 0,
        no_ws(t),
        s.len() == 0 || is_ascii_ws(s[0]),
    ensures
        tokens(t + s) == seq![t] + tokens(s),
{
    lemma_word_len_concat(t, s);
    assert((t + s)[0] == t[0]);
    assert((t + s).take(t.len() as int) =~= t);
    assert((t + s).skip(t.len() as int) =~= s);
}

/// The views of a list of tokens.
pub open spec fn views_of(v: Seq<Vec<char>>) -> Seq<Seq<char>> {
    v.map_values(|t: Vec<char>| t@)
}

fn is_ws(c: char) -> (r: bool)
    ensures
        r == is_ascii_ws(c),
{
    c == ' ' || c == '\t' || c == '\n' || c == '\x0C' || c == '\r'
}

/// The characters of a string, in order.
pub fn chars_of(s: &str) -> (v: Vec<char>)
    ensures
        v@ == s@,
{
    let mut v: Vec<char> = Vec::new();
    for c in it: s.chars()
        invariant
            it.seq() == s@,
            v@ == it.seq().take(it.index() as int),
    {
        v.push(c);
    }
    v
}

proof fn lemma_word_len_bound(s: Seq<char>)
    ensures
        word_len(s) <= s.len(),
        forall|k: int| 0 <= k < word_len(s) ==> !is_ascii_ws(#[trigger] s[k]),
        word_len(s) < s.len() ==> is_ascii_ws(s[word_len(s) as int]),
    decreases s.len(),
{
    if s.len() > 0 && !is_ascii_ws(s[0]) {
        lemma_word_len_bound(s.drop_first());
        assert forall|k: int| 0 <= k < word_len(s) implies !is_ascii_ws(#[trigger] s[k]) by {
            if k > 0 {
                assert(s[k] == s.drop_first()[k - 1]);
            }
        }
    }
}

/// Splits a line, given as characters, into its tokens.
pub fn split_ascii_ws(s: &[char]) -> (r: Vec<Vec<char>>)
    ensures
        views_of(r@) == tokens(s@),
{
    let mut r: Vec<Vec<char>> = Vec::new();
    let mut i: usize = 0;
    assert(s@.skip(0) =~= s@);
    assert(views_of(r@) =~= Seq::<Seq<char>>::empty());
    assert(views_of(r@) + tokens(s@) =~= tokens(s@));
    while i < s.len()
        invariant
            i <= s.len(),
            views_of(r@) + tokens(s@.skip(i as int)) == tokens(s@),
        decreases s.len() - i,
    {
        let ghost rest = s@.skip(i as int);
        if is_ws(s[i]) {
            assert(rest.drop_first() =~= s@.skip(i + 1));
            i = i + 1;
        } else {
            let mut t: Vec<char> = Vec::new();
            let mut j: usize = i;
            while j < s.len() && !is_ws(s[j])
                invariant
                    i <= j <= s.len(),
                    rest == s@.skip(i as int),
                    t@ == s@.subrange(i as int, j as int),
                    word_len(s@.skip(j as int)) + (j - i) == word_len(rest),
                decreases s.len() - j,
            {
                assert(s@.skip(j as int).drop_first() =~= s@.skip(j + 1));
                t.push(s[j]);
                j = j + 1;
                assert(t@ =~= s@.subrange(i as int, j as int));
            }
            assert(word_len(s@.skip(j as int)) == 0);
            assert(rest.take(word_len(rest) as int) =~= t@);
            assert(rest.skip(word_len(rest) as int) =~= s@.skip(j as int));
            let ghost old_r = views_of(r@);
            let ghost tv = t@;
            r.push(t);
            assert(views_of(r@) =~= old_r.push(tv));
            assert(views_of(r@) + tokens(s@.skip(j as int)) =~= old_r + tokens(rest));
            i = j;
        }
    }
    assert(s@.skip(i as int) =~= Seq::<char>::empty());
    assert(views_of(r@) + tokens(s@.skip(i as int)) =~= views_of(r@));
    r
}

} // verus!
