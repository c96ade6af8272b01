//! Normalisation of output stems: runs of ASCII letters and digits,
//! lowercased and joined by single hyphens.

use vstd::prelude::*;
use crate::text::{chars_of, occurs_at, text_of};

verus! {

/// An ASCII letter or digit: the characters that survive normalisation.
pub open spec fn is_word_char(c: char) -> bool {
    ('a' <= c && c <= 'z') || ('A' <= c && c <= 'Z') || ('0' <= c && c <= '9')
}

/// A character that may appear in a normalised name.
pub open spec fn is_name_char(c: char) -> bool {
    ('a' <= c && c <= 'z') || ('0' <= c && c <= '9') || c == '-'
}

/// ASCII lowercasing; every other character is left alone.
pub open spec fn lower(c: char) -> char {
    if 'A' <= c && c <= 'Z' {
        ((c as u32) + 32) as char
    } else {
        c
    }
}

/// ASCII lowercasing of every character.
pub open spec fn lower_all(s: Seq<char>) -> Seq<char> {
    Seq::new(s.len(), |i: int| lower(s[i]))
}

/// The maximal runs of ASCII letters and digits of `s`, lowercased, in order.
pub open spec fn words(s: Seq<char>) -> Seq<Seq<char>>
    decreases s.len(),
{
    if s.len() == 0 {
        seq![]
    } else {
        let prev = s.drop_last();
        let c = s.last();
        let ws = words(prev);
        if !is_word_char(c) {
            ws
        } else if prev.len() > 0 && is_word_char(prev.last()) {
            ws.update(ws.len() - 1, ws.last().push(lower(c)))
        } else {
            ws.push(seq![lower(c)])
        }
    }
}

/// The words of `ws` separated by single hyphens.
pub open spec fn join(ws: Seq<Seq<char>>) -> Seq<char>
    decreases ws.len(),
{
    if ws.len() == 0 {
        seq![]
    } else if ws.len() == 1 {
        ws[0]
    } else {
        join(ws.drop_last()) + seq!['-'] + ws.last()
    }
}

/// The message of the error returned for a stem without letters or digits.
pub open spec fn empty_stem_message(stem: Seq<char>) -> Seq<char> {
    "normalized output stem is empty: "@ + stem
}

/// What `normalized` returns for `stem`.
pub open spec fn normalized_spec(stem: Seq<char>) -> Result<Seq<char>, Seq<char>> {
    let out = join(words(stem));
    if out.len() == 0 {
        Err(empty_stem_message(stem))
    } else {
        Ok(out)
    }
}

/// A name made only of `a-z`, `0-9` and single hyphens, neither starting nor
/// ending with a hyphen.
pub open spec fn is_normalized_name(s: Seq<char>) -> bool {
    &&& s.len() > 0
    &&& forall|i: int| 0 <= i < s.len() ==> is_name_char(#[trigger] s[i])
    &&& s[0] != '-'
    &&& s.last() != '-'
    &&& forall|i: int| 0 <= i < s.len() - 1 ==> !(#[trigger] s[i] == '-' && s[i + 1] == '-')
}

/// Every word is a non-empty run of lowercase letters and digits.
pub open spec fn words_wf(ws: Seq<Seq<char>>) -> bool {
    forall|k: int|
        0 <= k < ws.len() ==> #[trigger] ws[k].len() > 0 && (forall|j: int|
            0 <= j < ws[k].len() ==> is_word_char(#[trigger] ws[k][j]) && ws[k][j] != '-'
                && is_name_char(ws[k][j]))
}

proof fn lemma_lower(c: char)
    requires
        is_word_char(c),
    ensures
        is_word_char(lower(c)),
        is_name_char(lower(c)),
        lower(c) != '-',
{
}

pub(crate) proof fn lemma_words_wf(s: Seq<char>)
    ensures
        words_wf(words(s)),
        words(s).len() > 0 <==> exists|i: int| 0 <= i < s.len() && is_word_char(#[trigger] s[i]),
        s.len() > 0 && is_word_char(s.last()) ==> words(s).len() > 0,
    decreases s.len(),
{
    if s.len() > 0 {
        let prev = s.drop_last();
        lemma_words_wf(prev);
        let c = s.last();
        let ws = words(prev);
        if is_word_char(c) {
            lemma_lower(c);
            assert(s[s.len() - 1] == c);
        } else {
            if exists|i: int| 0 <= i < s.len() && is_word_char(#[trigger] s[i]) {
                let i = choose|i: int| 0 <= i < s.len() && is_word_char(#[trigger] s[i]);
                assert(i < s.len() - 1);
                assert(prev[i] == s[i]);
            }
        }
        if exists|i: int| 0 <= i < prev.len() && is_word_char(#[trigger] prev[i]) {
            let i = choose|i: int| 0 <= i < prev.len() && is_word_char(#[trigger] prev[i]);
            assert(s[i] == prev[i]);
        }
        let ws2 = words(s);
        assert forall|k: int| 0 <= k < ws2.len() implies #[trigger] ws2[k].len() > 0 && (forall|
            j: int,
        |
            0 <= j < ws2[k].len() ==> is_word_char(#[trigger] ws2[k][j]) && ws2[k][j] != '-'
                && is_name_char(ws2[k][j])) by {
            if is_word_char(c) {
                lemma_lower(c);
                if k == ws2.len() - 1 {
                    assert forall|j: int| 0 <= j < ws2[k].len() implies is_word_char(
                        #[trigger] ws2[k][j],
                    ) && ws2[k][j] != '-' && is_name_char(ws2[k][j]) by {
                        if prev.len() > 0 && is_word_char(prev.last()) {
                            if j < ws2[k].len() - 1 {
                                assert(ws2[k][j] == ws[k][j]);
                            }
                        }
                    }
                }
            }
        }
    }
}


proof fn lemma_join_push(ws: Seq<Seq<char>>, w: Seq<char>)
    requires
        ws.len() > 0,
    ensures
        join(ws.push(w)) == join(ws) + seq!['-'] + w,
{
    assert(ws.push(w).drop_last() == ws);
}

proof fn lemma_join_extend(ws: Seq<Seq<char>>, c: char)
    requires
        ws.len() > 0,
    ensures
        join(ws.update(ws.len() - 1, ws.last().push(c))) == join(ws).push(c),
{
    let ws2 = ws.update(ws.len() - 1, ws.last().push(c));
    if ws.len() == 1 {
    } else {
        assert(ws2.drop_last() == ws.drop_last());
        assert(ws2.last() == ws.last().push(c));
    }
}

proof fn lemma_join_empty(ws: Seq<Seq<char>>)
    requires
        words_wf(ws),
    ensures
        join(ws).len() == 0 <==> ws.len() == 0,
    decreases ws.len(),
{
    if ws.len() > 1 {
        assert(ws[ws.len() - 1].len() > 0);
    } else if ws.len() == 1 {
        assert(ws[0].len() > 0);
    }
}

/// `stem` with every run of characters other than ASCII letters and digits
/// replaced by one hyphen, letters lowercased and outer hyphens removed; an
/// error when nothing is left.
pub fn normalized(stem: &str) -> (result: Result<String, String>)
    ensures
        match result {
            Ok(out) => normalized_spec(stem@) == Ok::<Seq<char>, Seq<char>>(out@),
            Err(message) => normalized_spec(stem@) == Err::<Seq<char>, Seq<char>>(message@),
        },
{
    let chars = chars_of(stem);
    let mut out: Vec<char> = Vec::new();
    let mut pending = false;
    let mut i: usize = 0;
    while i < chars.len()
        invariant
            chars@ == stem@,
            0 <= i <= chars.len(),
            out@ == join(words(chars@.subrange(0, i as int))),
            pending == (i > 0 && !is_word_char(chars@[i - 1])),
            words_wf(words(chars@.subrange(0, i as int))),
        decreases chars.len() - i,
    {
        let c = chars[i];
        let ghost prefix = chars@.subrange(0, i as int);
        let ghost next = chars@.subrange(0, i + 1);
        proof {
            assert(next.drop_last() == prefix);
            assert(next.last() == c);
            lemma_words_wf(prefix);
            lemma_words_wf(next);
            lemma_join_empty(words(prefix));
            if i > 0 {
                assert(prefix.last() == chars@[i - 1]);
            }
        }
        if ('a' <= c && c <= 'z') || ('0' <= c && c <= '9') {
            if pending && out.len() > 0 {
                out.push('-');
            }
            out.push(c);
            proof {
                if i > 0 && is_word_char(prefix.last()) {
                    lemma_join_extend(words(prefix), c);
                } else if words(prefix).len() > 0 {
                    lemma_join_push(words(prefix), seq![c]);
                }
            }
            pending = false;
        } else if 'A' <= c && c <= 'Z' {
            let l = ((c as u8) + 32) as char;
            assert(l == lower(c));
            if pending && out.len() > 0 {
                out.push('-');
            }
            out.push(l);
            proof {
                if i > 0 && is_word_char(prefix.last()) {
                    lemma_join_extend(words(prefix), l);
                } else if words(prefix).len() > 0 {
                    lemma_join_push(words(prefix), seq![l]);
                }
            }
            pending = false;
        } else {
            pending = true;
        }
        i = i + 1;
    }
    proof {
        assert(chars@.subrange(0, chars.len() as int) == stem@);
    }
    if out.len() == 0 {
        let mut message = String::from_str("normalized output stem is empty: ");
        message.append(stem);
        Err(message)
    } else {
        Ok(text_of(out.as_slice()))
    }
}


proof fn lemma_join_name(ws: Seq<Seq<char>>)
    requires
        words_wf(ws),
        ws.len() > 0,
    ensures
        is_normalized_name(join(ws)),
    decreases ws.len(),
{
    let w = ws.last();
    assert(ws[ws.len() - 1].len() > 0);
    if ws.len() == 1 {
        assert(ws[0] == w);
        assert(forall|j: int| 0 <= j < w.len() ==> is_name_char(#[trigger] w[j]) && w[j] != '-')
            by {
            assert forall|j: int| 0 <= j < w.len() implies is_name_char(#[trigger] w[j]) && w[j]
                != '-' by {
                assert(ws[0][j] == w[j]);
            }
        }
    } else {
        let init = ws.drop_last();
        assert(words_wf(init)) by {
            assert forall|k: int| 0 <= k < init.len() implies #[trigger] init[k].len() > 0 && (
            forall|j: int|
                0 <= j < init[k].len() ==> is_word_char(#[trigger] init[k][j]) && init[k][j]
                    != '-' && is_name_char(init[k][j])) by {
                assert(init[k] == ws[k]);
            }
        }
        lemma_join_name(init);
        let a = join(init);
        let s = a + seq!['-'] + w;
        assert(join(ws) == s);
        assert forall|j: int| 0 <= j < w.len() implies is_name_char(#[trigger] w[j]) && w[j]
            != '-' by {
            assert(ws[ws.len() - 1][j] == w[j]);
        }
        assert forall|i: int| 0 <= i < s.len() implies is_name_char(#[trigger] s[i]) by {
            if i < a.len() {
                assert(s[i] == a[i]);
            } else if i > a.len() {
                assert(s[i] == w[i - a.len() - 1]);
            }
        }
        assert forall|i: int| 0 <= i < s.len() - 1 implies !(#[trigger] s[i] == '-' && s[i + 1]
            == '-') by {
            if i < a.len() - 1 {
                assert(s[i] == a[i]);
                assert(s[i + 1] == a[i + 1]);
            } else if i == a.len() - 1 {
                assert(s[i] == a.last());
            } else if i == a.len() {
                assert(s[i + 1] == w[0]);
            } else {
                assert(s[i] == w[i - a.len() - 1]);
            }
        }
        assert(s[0] == a[0]);
        assert(s.last() == w.last());
    }
}

/// A text made of `a-z`, `0-9` and hyphens that has no doubled hyphen and
/// does not start with one (it may end with one).
spec fn is_name_prefix(s: Seq<char>) -> bool {
    &&& forall|i: int| 0 <= i < s.len() ==> is_name_char(#[trigger] s[i])
    &&& s.len() > 0 ==> s[0] != '-'
    &&& forall|i: int| 0 <= i < s.len() - 1 ==> !(#[trigger] s[i] == '-' && s[i + 1] == '-')
}

proof fn lemma_join_words_of_name_prefix(s: Seq<char>)
    requires
        is_name_prefix(s),
    ensures
        s.len() > 0 && s.last() == '-' ==> join(words(s)) == s.drop_last(),
        s.len() > 0 && s.last() != '-' ==> join(words(s)) == s,
        s.len() == 0 ==> join(words(s)) == s,
    decreases s.len(),
{
    if s.len() > 0 {
        let p = s.drop_last();
        let c = s.last();
        assert(is_name_prefix(p)) by {
            assert forall|i: int| 0 <= i < p.len() implies is_name_char(#[trigger] p[i]) by {
                assert(p[i] == s[i]);
            }
            assert forall|i: int| 0 <= i < p.len() - 1 implies !(#[trigger] p[i] == '-' && p[i
                + 1] == '-') by {
                assert(p[i] == s[i] && p[i + 1] == s[i + 1]);
            }
            if p.len() > 0 {
                assert(p[0] == s[0]);
            }
        }
        lemma_join_words_of_name_prefix(p);
        lemma_words_wf(p);
        assert(is_name_char(s[s.len() - 1]));
        if c == '-' {
            assert(p.len() > 0);
            assert(p.last() == s[s.len() - 2]);
        } else {
            assert(lower(c) == c);
            if p.len() == 0 {
                assert(s == seq![c]);
            } else if p.last() != '-' {
                assert(is_word_char(p.last())) by {
                    assert(is_name_char(p[p.len() - 1]));
                }
                lemma_join_extend(words(p), c);
                assert(s == p.push(c));
            } else {
                let q = p.drop_last();
                assert(p.len() > 1);
                assert(q.last() == s[s.len() - 3]);
                assert(s[s.len() - 3] != '-');
                assert(is_word_char(q.last())) by {
                    assert(is_name_char(s[s.len() - 3]));
                }
                lemma_words_wf(q);
                assert(p.drop_last() == q);
                assert(words(p) == words(q));
                lemma_join_push(words(p), seq![c]);
                assert(s == q + seq!['-'] + seq![c]);
            }
        }
    }
}

proof fn lemma_words_split(a: Seq<char>, b: Seq<char>)
    ensures
        words(a + seq!['-'] + b) == words(a) + words(b),
    decreases b.len(),
{
    let s = a + seq!['-'] + b;
    if b.len() == 0 {
        assert(s.drop_last() == a);
        assert(words(b) =~= seq![]);
        assert(words(a) + words(b) =~= words(a));
    } else {
        let b0 = b.drop_last();
        let c = b.last();
        lemma_words_split(a, b0);
        let prev = a + seq!['-'] + b0;
        assert(s.drop_last() == prev);
        assert(s.last() == c);
        let wa = words(a);
        let wb0 = words(b0);
        assert(words(prev) == wa + wb0);
        if b0.len() > 0 {
            assert(prev.last() == b0.last());
        } else {
            assert(prev.last() == '-');
        }
        if is_word_char(c) {
            if b0.len() > 0 && is_word_char(b0.last()) {
                lemma_words_wf(b0);
                let w = wb0.last().push(lower(c));
                assert((wa + wb0).last() == wb0.last());
                assert((wa + wb0).update((wa + wb0).len() - 1, w) =~= wa + wb0.update(
                    wb0.len() - 1,
                    w,
                ));
            } else {
                assert((wa + wb0).push(seq![lower(c)]) =~= wa + wb0.push(seq![lower(c)]));
            }
        }
    }
}

proof fn lemma_join_concat(xs: Seq<Seq<char>>, ys: Seq<Seq<char>>)
    requires
        xs.len() > 0,
        ys.len() > 0,
    ensures
        join(xs + ys) == join(xs) + seq!['-'] + join(ys),
    decreases ys.len(),
{
    if ys.len() == 1 {
        assert((xs + ys).drop_last() == xs);
        assert((xs + ys).last() == ys[0]);
    } else {
        let init = ys.drop_last();
        lemma_join_concat(xs, init);
        assert((xs + ys).drop_last() == xs + init);
        assert((xs + ys).last() == ys.last());
        assert(join(xs) + seq!['-'] + join(init) + seq!['-'] + ys.last() =~= join(xs) + seq!['-']
            + (join(init) + seq!['-'] + ys.last()));
    }
}

/// Normalising two texts joined by a hyphen joins their normalisations by a
/// hyphen, when both have letters or digits.
pub proof fn lemma_normalized_join(a: Seq<char>, b: Seq<char>)
    requires
        words(a).len() > 0,
        words(b).len() > 0,
    ensures
        words(a + seq!['-'] + b).len() > 0,
        join(words(a + seq!['-'] + b)) == join(words(a)) + seq!['-'] + join(words(b)),
{
    lemma_words_split(a, b);
    lemma_join_concat(words(a), words(b));
}

/// A name of `a-z`, `0-9` and single hyphens has words, and they join back
/// to the name.
pub proof fn lemma_name_words(s: Seq<char>)
    requires
        is_normalized_name(s),
    ensures
        words(s).len() > 0,
        join(words(s)) == s,
{
    law_normalized_fixes_exactly_names(s);
    lemma_words_wf(s);
    lemma_join_empty(words(s));
}

/// Every successful normalisation is a name made only of `a-z`, `0-9` and
/// single hyphens, with no hyphen at either end.
pub proof fn law_normalized_is_name(stem: Seq<char>)
    ensures
        normalized_spec(stem) matches Ok(out) ==> is_normalized_name(out),
{
    lemma_words_wf(stem);
    if words(stem).len() > 0 {
        lemma_join_name(words(stem));
    }
}

/// Normalisation returns a text unchanged exactly when it is already a name
/// of `a-z`, `0-9` and single hyphens with no hyphen at either end.
pub proof fn law_normalized_fixes_exactly_names(s: Seq<char>)
    ensures
        normalized_spec(s) == Ok::<Seq<char>, Seq<char>>(s) <==> is_normalized_name(s),
{
    law_normalized_is_name(s);
    if is_normalized_name(s) {
        lemma_join_words_of_name_prefix(s);
    }
}

/// Normalising a normalised stem changes nothing.
pub proof fn law_normalized_idempotent(stem: Seq<char>)
    ensures
        normalized_spec(stem) matches Ok(out) ==> normalized_spec(out) == Ok::<
            Seq<char>,
            Seq<char>,
        >(out),
{
    law_normalized_is_name(stem);
    if let Ok(out) = normalized_spec(stem) {
        law_normalized_fixes_exactly_names(out);
    }
}

/// No character of `w` is a hyphen.
pub open spec fn hyphen_free(w: Seq<char>) -> bool {
    forall|i: int| 0 <= i < w.len() ==> #[trigger] w[i] != '-'
}

/// The last `n` characters of `s`.
pub open spec fn tail(s: Seq<char>, n: int) -> Seq<char> {
    s.subrange(s.len() - n, s.len() as int)
}

proof fn lemma_join_prefix(s: Seq<char>)
    requires
        s.len() > 0,
    ensures
        join(words(s.drop_last())).len() <= join(words(s)).len(),
        join(words(s)).subrange(0, join(words(s.drop_last())).len() as int) == join(
            words(s.drop_last()),
        ),
{
    let prev = s.drop_last();
    let c = s.last();
    let ws = words(prev);
    lemma_words_wf(prev);
    if is_word_char(c) {
        if prev.len() > 0 && is_word_char(prev.last()) {
            lemma_join_extend(ws, lower(c));
        } else if ws.len() > 0 {
            lemma_join_push(ws, seq![lower(c)]);
        }
    }
}

/// A hyphen-free ending of the normalised words of a text that ends with a
/// letter or digit is the lowercased ending of the text.
proof fn lemma_word_suffix(s: Seq<char>, n: int)
    requires
        s.len() > 0,
        is_word_char(s.last()),
        0 < n <= join(words(s)).len(),
        hyphen_free(tail(join(words(s)), n)),
    ensures
        n <= s.len(),
        tail(join(words(s)), n) == tail(lower_all(s), n),
    decreases s.len(),
{
    let prev = s.drop_last();
    let c = s.last();
    let ws = words(prev);
    let j = join(words(s));
    lemma_words_wf(prev);
    assert(lower_all(s) == lower_all(prev).push(lower(c)));
    if prev.len() > 0 && is_word_char(prev.last()) {
        lemma_join_extend(ws, lower(c));
        let jp = join(ws);
        assert(j == jp.push(lower(c)));
        if n > 1 {
            assert(tail(j, n) == tail(jp, n - 1).push(lower(c)));
            assert(hyphen_free(tail(jp, n - 1))) by {
                assert forall|i: int| 0 <= i < n - 1 implies #[trigger] tail(jp, n - 1)[i] != '-' by {
                    assert(tail(jp, n - 1)[i] == tail(j, n)[i]);
                }
            }
            lemma_word_suffix(prev, n - 1);
            assert(tail(lower_all(s), n) == tail(lower_all(prev), n - 1).push(lower(c)));
        } else {
            assert(tail(j, 1) == seq![lower(c)]);
            assert(tail(lower_all(s), 1) == seq![lower(c)]);
        }
    } else {
        if ws.len() > 0 {
            lemma_join_push(ws, seq![lower(c)]);
            assert(words(s) == ws.push(seq![lower(c)]));
            assert(j == join(ws) + seq!['-'] + seq![lower(c)]);
            if n > 1 {
                assert(tail(j, n)[n - 2] == j[j.len() - 2]);
                assert(j[j.len() - 2] == '-');
            }
        } else {
            assert(words(s) == seq![seq![lower(c)]]);
            assert(j == seq![lower(c)]);
        }
        assert(tail(j, 1) == seq![lower(c)]);
        assert(tail(lower_all(s), 1) == seq![lower(c)]);
    }
}

/// A hyphen-free text found in the normalised words of `s` is found in the
/// lowercased `s`.
pub proof fn lemma_words_windows(s: Seq<char>, w: Seq<char>, at: int)
    requires
        hyphen_free(w),
        w.len() > 0,
        occurs_at(join(words(s)), w, at),
    ensures
        exists|i: int| occurs_at(lower_all(s), w, i),
    decreases s.len(),
{
    let j = join(words(s));
    if s.len() == 0 {
        assert(j.len() == 0);
    } else {
        let prev = s.drop_last();
        let c = s.last();
        let jp = join(words(prev));
        lemma_join_prefix(s);
        assert(lower_all(prev) == lower_all(s).subrange(0, prev.len() as int));
        if at + w.len() <= jp.len() {
            assert(j.subrange(at, at + w.len()) == jp.subrange(at, at + w.len()));
            lemma_words_windows(prev, w, at);
            let i = choose|i: int| occurs_at(lower_all(prev), w, i);
            assert(lower_all(s).subrange(i, i + w.len()) == lower_all(prev).subrange(i, i + w.len()));
            assert(occurs_at(lower_all(s), w, i));
        } else {
            let ws = words(prev);
            lemma_words_wf(prev);
            assert(is_word_char(c)) by {
                if !is_word_char(c) {
                    assert(words(s) == ws);
                }
            }
            if prev.len() > 0 && is_word_char(prev.last()) {
                lemma_join_extend(ws, lower(c));
            } else if ws.len() > 0 {
                lemma_join_push(ws, seq![lower(c)]);
                assert(j == jp + seq!['-'] + seq![lower(c)]);
                assert(at + w.len() == j.len()) by {
                    if at + w.len() == jp.len() + 1 {
                        assert(w[jp.len() - at] == j.subrange(at, at + w.len())[jp.len() - at]);
                        assert(j[jp.len() as int] == '-');
                    }
                }
            } else {
                assert(words(s) == seq![seq![lower(c)]]);
            }
            assert(at + w.len() == j.len());
            assert(tail(j, w.len() as int) == w);
            lemma_word_suffix(s, w.len() as int);
            assert(occurs_at(lower_all(s), w, s.len() - w.len()));
        }
    }
}

/// A digit or a decimal point: the characters a number is written with.
pub open spec fn is_number_char(c: char) -> bool {
    ('0' <= c && c <= '9') || c == '.'
}

/// The normalised words of a text of digits and points are digits joined by
/// hyphens.
pub proof fn lemma_number_words(s: Seq<char>)
    requires
        forall|i: int| 0 <= i < s.len() ==> is_number_char(#[trigger] s[i]),
    ensures
        forall|k: int|
            0 <= k < join(words(s)).len() ==> {
                let x = #[trigger] join(words(s))[k];
                ('0' <= x && x <= '9') || x == '-'
            },
    decreases s.len(),
{
    if s.len() > 0 {
        let prev = s.drop_last();
        let c = s.last();
        let ws = words(prev);
        assert forall|i: int| 0 <= i < prev.len() implies is_number_char(#[trigger] prev[i]) by {
            assert(prev[i] == s[i]);
        }
        lemma_number_words(prev);
        lemma_words_wf(prev);
        assert(is_number_char(s[s.len() - 1]));
        if is_word_char(c) {
            if prev.len() > 0 && is_word_char(prev.last()) {
                lemma_join_extend(ws, lower(c));
            } else if ws.len() > 0 {
                lemma_join_push(ws, seq![lower(c)]);
            } else {
                assert(words(s) == seq![seq![lower(c)]]);
            }
        }
    }
}

} // verus!
