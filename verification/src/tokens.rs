use vstd::prelude::*;

use crate::ascii::{is_space, spec_is_space, ASCII_SPACE};

verus! {

/// Scanning `s` left to right: the whitespace-separated words completed so far,
/// and the word being read.
pub open spec fn split_state(s: Seq<u8>) -> (Seq<Seq<u8>>, Seq<u8>)
    decreases s.len(),
{
    if s.len() == 0 {
        (seq![], seq![])
    } else {
        let (done, cur) = split_state(s.drop_last());
        let b = s.last();
        if spec_is_space(b) {
            if cur.len() > 0 {
                (done.push(cur), seq![])
            } else {
                (done, seq![])
            }
        } else {
            (done, cur.push(b))
        }
    }
}

/// The non-empty words of `s`, separated by ASCII whitespace.
pub open spec fn spec_tokens(s: Seq<u8>) -> Seq<Seq<u8>> {
    let (done, cur) = split_state(s);
    if cur.len() > 0 {
        done.push(cur)
    } else {
        done
    }
}

/// A word is a non-empty run of non-whitespace bytes.
pub open spec fn is_word(t: Seq<u8>) -> bool {
    t.len() > 0 && forall|i: int| 0 <= i < t.len() ==> !spec_is_space(#[trigger] t[i])
}

/// Words joined by single spaces.
pub open spec fn join_words(ts: Seq<Seq<u8>>) -> Seq<u8>
    decreases ts.len(),
{
    if ts.len() == 0 {
        seq![]
    } else if ts.len() == 1 {
        ts[0]
    } else {
        join_words(ts.drop_last()) + seq![ASCII_SPACE] + ts.last()
    }
}

/// The views of a vector of byte slices.
pub open spec fn views<'a>(v: Seq<&'a [u8]>) -> Seq<Seq<u8>> {
    v.map_values(|t: &'a [u8]| t@)
}

/// Splits `s` into its non-empty whitespace-separated words.
pub fn split_tokens<'a>(s: &'a [u8]) -> (res: Vec<&'a [u8]>)
    ensures
        views(res@) == spec_tokens(s@),
{
    let mut res: Vec<&'a [u8]> = Vec::new();
    let mut start: usize = 0;
    let mut i: usize = 0;
    while i < s.len()
        invariant
            start <= i <= s@.len(),
            views(res@) == split_state(s@.take(i as int)).0,
            s@.subrange(start as int, i as int) == split_state(s@.take(i as int)).1,
        decreases s@.len() - i,
    {
        proof {
            assert(s@.take(i + 1).drop_last() =~= s@.take(i as int));
            assert(s@.take(i + 1).last() == s@[i as int]);
        }
        if is_space(s[i]) {
            if start < i {
                let w = &s[start..i];
                let ghost before = res@;
                res.push(w);
                proof {
                    assert(views(res@) =~= views(before).push(w@));
                }
            }
            start = i + 1;
        }
        i = i + 1;
        proof {
            assert(s@.subrange(start as int, i as int) =~= split_state(s@.take(i as int)).1);
        }
    }
    assert(s@.take(s@.len() as int) =~= s@);
    if start < s.len() {
        let w = &s[start..s.len()];
        let ghost before = res@;
        res.push(w);
        proof {
            assert(views(res@) =~= views(before).push(w@));
        }
    }
    assert(views(res@) =~= spec_tokens(s@));
    res
}

/// Scanning state after a prefix and then a word with no whitespace: the word
/// extends the current one.
proof fn lemma_split_append_word(s: Seq<u8>, t: Seq<u8>)
    requires
        forall|i: int| 0 <= i < t.len() ==> !spec_is_space(#[trigger] t[i]),
    ensures
        split_state(s + t) == (split_state(s).0, split_state(s).1 + t),
    decreases t.len(),
{
    if t.len() == 0 {
        assert(s + t =~= s);
        assert(split_state(s).1 + t =~= split_state(s).1);
    } else {
        let u = t.drop_last();
        lemma_split_append_word(s, u);
        assert((s + t).drop_last() =~= s + u);
        assert((s + t).last() == t.last());
        assert(split_state(s).1 + u.push(t.last()) =~= split_state(s).1 + t);
        assert((split_state(s).1 + u).push(t.last()) =~= split_state(s).1 + t);
    }
}

/// Scanning state after a single space: the current word, if any, is complete.
proof fn lemma_split_append_space(s: Seq<u8>)
    ensures
        split_state(s + seq![ASCII_SPACE]) == (spec_tokens(s), Seq::<u8>::empty()),
{
    assert((s + seq![ASCII_SPACE]).drop_last() =~= s);
}

/// Splitting words joined by single spaces gives the words back.
pub proof fn lemma_tokens_of_join(ts: Seq<Seq<u8>>)
    requires
        forall|i: int| 0 <= i < ts.len() ==> is_word(#[trigger] ts[i]),
    ensures
        spec_tokens(join_words(ts)) == ts,
{
    if ts.len() > 0 {
        lemma_split_join(ts);
        assert(ts.drop_last().push(ts.last()) =~= ts);
    } else {
        assert(spec_tokens(join_words(ts)) =~= ts);
    }
}

proof fn lemma_split_join(ts: Seq<Seq<u8>>)
    requires
        ts.len() > 0,
        forall|i: int| 0 <= i < ts.len() ==> is_word(#[trigger] ts[i]),
    ensures
        split_state(join_words(ts)) == (ts.drop_last(), ts.last()),
    decreases ts.len(),
{
    assert(is_word(ts.last()));
    if ts.len() == 1 {
        lemma_split_append_word(seq![], ts[0]);
        assert(Seq::<u8>::empty() + ts[0] =~= ts[0]);
        assert(Seq::<u8>::empty() + ts[0] =~= ts[0]);
        assert(ts.drop_last() =~= Seq::<Seq<u8>>::empty());
    } else {
        let init = ts.drop_last();
        assert forall|i: int| 0 <= i < init.len() implies is_word(#[trigger] init[i]) by {
            assert(init[i] == ts[i]);
        }
        lemma_split_join(init);
        let prefix = join_words(init) + seq![ASCII_SPACE];
        lemma_split_append_space(join_words(init));
        assert(is_word(init.last()));
        assert(init.drop_last().push(init.last()) =~= init);
        lemma_split_append_word(prefix, ts.last());
        assert(Seq::<u8>::empty() + ts.last() =~= ts.last());
    }
}

/// Scanning a word and a space, then more bytes: the word is complete, and the
/// rest scans as it would alone.
proof fn lemma_split_after_word(w: Seq<u8>, t: Seq<u8>)
    requires
        is_word(w),
    ensures
        split_state(w + seq![ASCII_SPACE] + t) == (seq![w] + split_state(t).0, split_state(t).1),
    decreases t.len(),
{
    if t.len() == 0 {
        assert(w + seq![ASCII_SPACE] + t =~= w + seq![ASCII_SPACE]);
        lemma_split_append_space(w);
        lemma_split_append_word(seq![], w);
        assert(Seq::<u8>::empty() + w =~= w);
        assert(Seq::<Seq<u8>>::empty().push(w) =~= seq![w] + Seq::<Seq<u8>>::empty());
    } else {
        let u = t.drop_last();
        lemma_split_after_word(w, u);
        assert((w + seq![ASCII_SPACE] + t).drop_last() =~= w + seq![ASCII_SPACE] + u);
        assert((w + seq![ASCII_SPACE] + t).last() == t.last());
        let (done, cur) = split_state(u);
        assert((seq![w] + done).push(cur) =~= seq![w] + done.push(cur));
    }
}

/// The words of a word, a space and more bytes: that word, then the words of
/// the rest.
pub proof fn lemma_tokens_after_word(w: Seq<u8>, t: Seq<u8>)
    requires
        is_word(w),
    ensures
        spec_tokens(w + seq![ASCII_SPACE] + t) == seq![w] + spec_tokens(t),
{
    lemma_split_after_word(w, t);
    let (done, cur) = split_state(t);
    assert((seq![w] + done).push(cur) =~= seq![w] + done.push(cur));
}

/// Words joined by spaces start with the first byte of the first word and end
/// with the last byte of the last.
pub proof fn lemma_join_ends(ts: Seq<Seq<u8>>)
    requires
        ts.len() > 0,
        forall|i: int| 0 <= i < ts.len() ==> is_word(#[trigger] ts[i]),
    ensures
        join_words(ts).len() > 0,
        join_words(ts)[0] == ts[0][0],
        join_words(ts).last() == ts.last().last(),
    decreases ts.len(),
{
    assert(is_word(ts[0]));
    assert(is_word(ts.last()));
    if ts.len() > 1 {
        let init = ts.drop_last();
        assert forall|i: int| 0 <= i < init.len() implies is_word(#[trigger] init[i]) by {
            assert(init[i] == ts[i]);
        }
        lemma_join_ends(init);
    }
}

/// Number of whitespace bytes at the start of `s`.
pub open spec fn leading_spaces(s: Seq<u8>) -> nat
    decreases s.len(),
{
    if s.len() > 0 && spec_is_space(s[0]) {
        1 + leading_spaces(s.drop_first())
    } else {
        0
    }
}

/// Number of non-whitespace bytes at the start of `s`.
pub open spec fn leading_word(s: Seq<u8>) -> nat
    decreases s.len(),
{
    if s.len() > 0 && !spec_is_space(s[0]) {
        1 + leading_word(s.drop_first())
    } else {
        0
    }
}

/// Number of whitespace bytes at the end of `s`.
pub open spec fn trailing_spaces(s: Seq<u8>) -> nat
    decreases s.len(),
{
    if s.len() > 0 && spec_is_space(s.last()) {
        1 + trailing_spaces(s.drop_last())
    } else {
        0
    }
}

/// The first word of `s` and what follows it, if `s` holds a word.
pub open spec fn spec_next_token(s: Seq<u8>) -> Option<(Seq<u8>, Seq<u8>)> {
    let st = leading_spaces(s) as int;
    if st >= s.len() {
        None
    } else {
        let r = s.skip(st);
        let e = leading_word(r) as int;
        Some((r.take(e), r.skip(e)))
    }
}

/// `s` without leading and trailing whitespace.
pub open spec fn spec_trim(s: Seq<u8>) -> Seq<u8> {
    let a = leading_spaces(s) as int;
    if a >= s.len() {
        seq![]
    } else {
        s.subrange(a, s.len() - trailing_spaces(s))
    }
}

/// Counting from the definition: the run ends exactly where the first byte
/// of the other kind stands.
pub proof fn lemma_leading_spaces(s: Seq<u8>, i: int)
    requires
        0 <= i <= s.len(),
        forall|j: int| 0 <= j < i ==> spec_is_space(#[trigger] s[j]),
        i == s.len() || !spec_is_space(s[i]),
    ensures
        leading_spaces(s) == i,
    decreases i,
{
    if i > 0 {
        lemma_leading_spaces(s.drop_first(), i - 1);
    }
}

proof fn lemma_leading_spaces_stop(s: Seq<u8>)
    ensures
        leading_spaces(s) <= s.len(),
        leading_spaces(s) < s.len() ==> !spec_is_space(s[leading_spaces(s) as int]),
        forall|j: int| 0 <= j < leading_spaces(s) ==> spec_is_space(#[trigger] s[j]),
    decreases s.len(),
{
    if s.len() > 0 && spec_is_space(s[0]) {
        lemma_leading_spaces_stop(s.drop_first());
        assert forall|j: int| 0 <= j < leading_spaces(s) implies spec_is_space(#[trigger] s[j]) by {
            if j > 0 {
                assert(s[j] == s.drop_first()[j - 1]);
            }
        }
    }
}

/// Counting from the definition: the run ends exactly where the first byte
/// of the other kind stands.
pub proof fn lemma_leading_word(s: Seq<u8>, i: int)
    requires
        0 <= i <= s.len(),
        forall|j: int| 0 <= j < i ==> !spec_is_space(#[trigger] s[j]),
        i == s.len() || spec_is_space(s[i]),
    ensures
        leading_word(s) == i,
    decreases i,
{
    if i > 0 {
        lemma_leading_word(s.drop_first(), i - 1);
    }
}

/// Counting from the definition: the run ends exactly where the first byte
/// of the other kind stands.
pub proof fn lemma_trailing_spaces(s: Seq<u8>, k: int)
    requires
        0 <= k <= s.len(),
        forall|j: int| s.len() - k <= j < s.len() ==> spec_is_space(#[trigger] s[j]),
        k == s.len() || !spec_is_space(s[s.len() - k - 1]),
    ensures
        trailing_spaces(s) == k,
    decreases k,
{
    if k > 0 {
        lemma_trailing_spaces(s.drop_last(), k - 1);
    }
}

/// Index of the first non-whitespace byte of `s`, or its length.
fn skip_spaces(s: &[u8]) -> (r: usize)
    ensures
        r == leading_spaces(s@),
        r <= s@.len(),
{
    let mut i: usize = 0;
    while i < s.len() && is_space(s[i])
        invariant
            i <= s@.len(),
            forall|j: int| 0 <= j < i ==> spec_is_space(#[trigger] s@[j]),
        decreases s@.len() - i,
    {
        i = i + 1;
    }
    proof {
        lemma_leading_spaces(s@, i as int);
    }
    i
}

/// Index of the first whitespace byte of `s`, or its length.
fn skip_word(s: &[u8]) -> (r: usize)
    ensures
        r == leading_word(s@),
        r <= s@.len(),
{
    let mut i: usize = 0;
    while i < s.len() && !is_space(s[i])
        invariant
            i <= s@.len(),
            forall|j: int| 0 <= j < i ==> !spec_is_space(#[trigger] s@[j]),
        decreases s@.len() - i,
    {
        i = i + 1;
    }
    proof {
        lemma_leading_word(s@, i as int);
    }
    i
}

/// The first word of `input` and what follows it.
pub fn next_token<'a>(input: &'a [u8]) -> (res: Option<(&'a [u8], &'a [u8])>)
    ensures
        match res {
            Some((t, rest)) => spec_next_token(input@) == Some((t@, rest@)),
            None => spec_next_token(input@) is None,
        },
{
    let start = skip_spaces(input);
    if start >= input.len() {
        return None;
    }
    let rest = &input[start..input.len()];
    let end = skip_word(rest);
    let t = &rest[0..end];
    let after = &rest[end..rest.len()];
    proof {
        assert(rest@ =~= input@.skip(start as int));
        assert(t@ =~= rest@.take(end as int));
        assert(after@ =~= rest@.skip(end as int));
    }
    Some((t, after))
}

/// `s` without leading and trailing ASCII whitespace.
pub fn trim_ascii<'a>(s: &'a [u8]) -> (res: &'a [u8])
    ensures
        res@ == spec_trim(s@),
{
    let a = skip_spaces(s);
    if a >= s.len() {
        let e = &s[0..0];
        assert(e@ =~= Seq::<u8>::empty());
        return e;
    }
    proof {
        lemma_leading_spaces_stop(s@);
    }
    let mut k: usize = 0;
    while k < s.len() - a && is_space(s[s.len() - 1 - k])
        invariant
            a < s@.len(),
            a == leading_spaces(s@),
            !spec_is_space(s@[a as int]),
            k <= s@.len() - a,
            forall|j: int| s@.len() - k <= j < s@.len() ==> spec_is_space(#[trigger] s@[j]),
        decreases s@.len() - a - k,
    {
        k = k + 1;
    }
    proof {
        if k == s@.len() - a {
            assert(spec_is_space(s@[a as int]));
        }
        lemma_trailing_spaces(s@, k as int);
    }
    &s[a..s.len() - k]
}

} // verus!
