use vstd::prelude::*;
use vstd::utf8::is_ascii_chars;
use crate::text::{join_with, lemma_join_with_concat};
use crate::unicode::{
    ascii_lower, ascii_lowercased, ascii_upper, ascii_uppercased, char_is_whitespace,
    is_ascii_char, lemma_ascii_case_folds, char_to_lowercase, char_to_uppercase, is_whitespace, lowercase_of_char,
    push_char, uppercase_of_char,
};

verus! {

/// The whitespace-separated words of `s`: its maximal runs of characters
/// that are not whitespace, in order.
pub open spec fn words(s: Seq<char>) -> Seq<Seq<char>>
    decreases s.len(),
{
    if s.len() == 0 {
        Seq::empty()
    } else {
        let prev = words(s.drop_last());
        let c = s.last();
        if char_is_whitespace(c) {
            prev
        } else if s.len() > 1 && !char_is_whitespace(s[s.len() - 2]) {
            prev.update(prev.len() - 1, prev.last().push(c))
        } else {
            prev.push(seq![c])
        }
    }
}

/// The first character of the lowercase mapping of `c`.
pub open spec fn lower_first(c: char) -> char {
    char_to_lowercase(c)[0]
}

/// A word in title case: its first character uppercased (possibly into
/// several characters), each other character replaced by the first
/// character of its lowercase mapping.
pub open spec fn title_word(w: Seq<char>) -> Seq<char> {
    char_to_uppercase(w[0]) + w.drop_first().map_values(|c: char| lower_first(c))
}

/// The title-cased words of `s`, joined by single spaces.
pub open spec fn titleized(s: Seq<char>) -> Seq<char> {
    join_with(words(s).map_values(|w: Seq<char>| title_word(w)), seq![' '])
}

/// An ASCII word in title case: its first letter uppercased, its other
/// letters lowercased.
pub open spec fn ascii_title_word(w: Seq<char>) -> Seq<char> {
    seq![ascii_upper(w[0])] + ascii_lowercased(w.drop_first())
}

/// The title-cased words of an ASCII string, joined by single spaces.
pub open spec fn ascii_titleized(s: Seq<char>) -> Seq<char> {
    join_with(words(s).map_values(|w: Seq<char>| ascii_title_word(w)), seq![' '])
}

/// Every word is non-empty, and a string that ends in a non-whitespace
/// character has at least one word.
proof fn lemma_words_shape(s: Seq<char>)
    ensures
        forall|j: int| 0 <= j < words(s).len() ==> #[trigger] words(s)[j].len() > 0,
        s.len() > 0 && !char_is_whitespace(s.last()) ==> words(s).len() > 0,
    decreases s.len(),
{
    if s.len() > 0 {
        lemma_words_shape(s.drop_last());
        if s.len() > 1 {
            assert(s.drop_last().last() == s[s.len() - 2]);
        }
        let prev = words(s.drop_last());
        let c = s.last();
        if !char_is_whitespace(c) && s.len() > 1 && !char_is_whitespace(s[s.len() - 2]) {
            let w = prev.update(prev.len() - 1, prev.last().push(c));
            assert forall|j: int| 0 <= j < w.len() implies #[trigger] w[j].len() > 0 by {
                if j != prev.len() - 1 {
                    assert(w[j] == prev[j]);
                }
            }
        } else if !char_is_whitespace(c) {
            let w = prev.push(seq![c]);
            assert forall|j: int| 0 <= j < w.len() implies #[trigger] w[j].len() > 0 by {
                if j < prev.len() {
                    assert(w[j] == prev[j]);
                }
            }
        }
    }
}

/// Joining after extending the last part extends the join.
proof fn lemma_join_extend_last(parts: Seq<Seq<char>>, sep: Seq<char>, x: Seq<char>)
    requires
        parts.len() > 0,
    ensures
        join_with(parts.update(parts.len() - 1, parts.last() + x), sep) == join_with(parts, sep)
            + x,
{
    let q = parts.update(parts.len() - 1, parts.last() + x);
    if parts.len() == 1 {
        assert(q[0] == parts[0] + x);
    } else {
        assert(q.drop_last() =~= parts.drop_last());
        assert(join_with(q, sep) =~= join_with(parts, sep) + x);
    }
}

/// `s` with the case of its ASCII letters changed: uppercased when `up`,
/// else lowercased.
pub open spec fn ascii_recased(s: Seq<char>, up: bool) -> Seq<char> {
    if up {
        ascii_uppercased(s)
    } else {
        ascii_lowercased(s)
    }
}

/// A character with its ASCII case changed as in `ascii_recased`.
pub open spec fn ascii_recased_char(c: char, up: bool) -> char {
    if up {
        ascii_upper(c)
    } else {
        ascii_lower(c)
    }
}

proof fn lemma_recased_index(s: Seq<char>, up: bool)
    ensures
        ascii_recased(s, up).len() == s.len(),
        forall|i: int|
            0 <= i < s.len() ==> #[trigger] ascii_recased(s, up)[i] == ascii_recased_char(s[i], up),
{
}

/// Changing the case of ASCII letters changes it in each word and keeps the
/// words where they are.
proof fn lemma_words_of_recased(s: Seq<char>, up: bool)
    ensures
        words(ascii_recased(s, up)) == words(s).map_values(|w: Seq<char>| ascii_recased(w, up)),
    decreases s.len(),
{
    let g = |w: Seq<char>| ascii_recased(w, up);
    let t = ascii_recased(s, up);
    lemma_recased_index(s, up);
    if s.len() == 0 {
        assert(words(s).map_values(g) =~= Seq::<Seq<char>>::empty());
    } else {
        let sd = s.drop_last();
        lemma_words_of_recased(sd, up);
        lemma_recased_index(sd, up);
        assert(t.drop_last() =~= ascii_recased(sd, up));
        let c = s.last();
        lemma_ascii_case_folds(c);
        assert(t.last() == ascii_recased_char(c, up));
        if s.len() > 1 {
            lemma_ascii_case_folds(s[s.len() - 2]);
            assert(t[t.len() - 2] == ascii_recased_char(s[s.len() - 2], up));
        }
        let w = words(sd);
        lemma_words_shape(sd);
        if s.len() > 1 {
            assert(sd.last() == s[s.len() - 2]);
        }
        if char_is_whitespace(c) {
        } else if s.len() > 1 && !char_is_whitespace(s[s.len() - 2]) {
            let last = w.last();
            lemma_recased_index(last, up);
            lemma_recased_index(last.push(c), up);
            assert(g(last.push(c)) =~= g(last).push(ascii_recased_char(c, up)));
            assert(words(t) =~= words(s).map_values(g));
        } else {
            lemma_recased_index(seq![c], up);
            assert(g(seq![c]) =~= seq![ascii_recased_char(c, up)]);
            assert(words(t) =~= words(s).map_values(g));
        }
    }
}

/// Title-casing a non-empty word does not depend on the case of its ASCII
/// letters.
proof fn lemma_title_word_of_recased(w: Seq<char>, up: bool)
    requires
        w.len() > 0,
    ensures
        ascii_title_word(ascii_recased(w, up)) == ascii_title_word(w),
{
    lemma_recased_index(w, up);
    lemma_ascii_case_folds(w[0]);
    assert forall|i: int| 0 <= i < w.len() - 1 implies #[trigger] ascii_lowercased(
        ascii_recased(w, up).drop_first(),
    )[i] == ascii_lowercased(w.drop_first())[i] by {
        lemma_ascii_case_folds(w[i + 1]);
    }
    assert(ascii_title_word(ascii_recased(w, up)) =~= ascii_title_word(w));
}

/// The title case of an ASCII string does not depend on the case of its
/// letters: lowercasing or uppercasing the string first (which keeps it
/// ASCII) gives the same result.
pub proof fn lemma_titleize_ignores_ascii_case(s: Seq<char>)
    requires
        is_ascii_chars(s),
    ensures
        is_ascii_chars(ascii_lowercased(s)),
        is_ascii_chars(ascii_uppercased(s)),
        ascii_titleized(ascii_lowercased(s)) == ascii_titleized(s),
        ascii_titleized(ascii_uppercased(s)) == ascii_titleized(s),
{
    lemma_recased_same_title(s, false);
    lemma_recased_same_title(s, true);
}

proof fn lemma_recased_same_title(s: Seq<char>, up: bool)
    requires
        is_ascii_chars(s),
    ensures
        is_ascii_chars(ascii_recased(s, up)),
        ascii_titleized(ascii_recased(s, up)) == ascii_titleized(s),
{
    let t = ascii_recased(s, up);
    lemma_recased_index(s, up);
    assert forall|i: int| 0 <= i < t.len() implies '\0' <= #[trigger] t[i] <= '\u{7F}' by {
        assert('\0' <= s[i] <= '\u{7F}');
        lemma_ascii_case_folds(s[i]);
    }
    lemma_words_of_recased(s, up);
    lemma_words_shape(s);
    let g = |w: Seq<char>| ascii_recased(w, up);
    let atw = |w: Seq<char>| ascii_title_word(w);
    let ws = words(s);
    assert forall|k: int| 0 <= k < ws.len() implies #[trigger] ws.map_values(g).map_values(atw)[k]
        == ws.map_values(atw)[k] by {
        lemma_title_word_of_recased(ws[k], up);
    }
    assert(ws.map_values(g).map_values(atw) =~= ws.map_values(atw));
}

/// Whether every character of `s` is whitespace.
pub open spec fn all_whitespace(s: Seq<char>) -> bool {
    forall|i: int| 0 <= i < s.len() ==> char_is_whitespace(#[trigger] s[i])
}

/// A string has no words exactly when all its characters are whitespace.
proof fn lemma_words_empty_iff_blank(s: Seq<char>)
    ensures
        words(s).len() == 0 <==> all_whitespace(s),
    decreases s.len(),
{
    if s.len() > 0 {
        lemma_words_empty_iff_blank(s.drop_last());
        lemma_words_shape(s);
        let d = s.drop_last();
        if !char_is_whitespace(s.last()) {
            assert(!char_is_whitespace(s[s.len() - 1]));
        } else {
            assert(all_whitespace(s) <==> all_whitespace(d)) by {
                if all_whitespace(d) {
                    assert forall|i: int| 0 <= i < s.len() implies char_is_whitespace(
                        #[trigger] s[i],
                    ) by {
                        if i < d.len() {
                            assert(s[i] == d[i]);
                        }
                    }
                }
                if all_whitespace(s) {
                    assert forall|i: int| 0 <= i < d.len() implies char_is_whitespace(
                        #[trigger] d[i],
                    ) by {
                        assert(s[i] == d[i]);
                    }
                }
            }
        }
    }
}

/// A non-empty run of characters none of which is whitespace is one word.
proof fn lemma_words_of_word(w: Seq<char>)
    requires
        w.len() > 0,
        forall|i: int| 0 <= i < w.len() ==> !char_is_whitespace(#[trigger] w[i]),
    ensures
        words(w) == seq![w],
    decreases w.len(),
{
    let d = w.drop_last();
    if w.len() == 1 {
        assert(d =~= Seq::<char>::empty());
        assert(!char_is_whitespace(w[0]));
        assert(w.last() == w[0]);
        assert(words(d) =~= Seq::<Seq<char>>::empty());
        assert(seq![w.last()] =~= w);
        assert(words(w) =~= seq![w]);
    } else {
        assert forall|i: int| 0 <= i < d.len() implies !char_is_whitespace(#[trigger] d[i]) by {
            assert(d[i] == w[i]);
        }
        lemma_words_of_word(d);
        assert(!char_is_whitespace(w[w.len() - 1]));
        assert(!char_is_whitespace(w[w.len() - 2]));
        assert(d.push(w.last()) =~= w);
        assert(words(w) =~= seq![d].update(0, d.push(w.last())));
        assert(seq![d].update(0, d.push(w.last())) =~= seq![w]);
    }
}

/// After a string that ends in whitespace, the words of what follows are
/// added as they are.
proof fn lemma_words_after_whitespace(x: Seq<char>, y: Seq<char>)
    requires
        x.len() > 0,
        char_is_whitespace(x.last()),
    ensures
        words(x + y) == words(x) + words(y),
    decreases y.len(),
{
    if y.len() == 0 {
        assert(x + y =~= x);
        assert(words(x) + Seq::<Seq<char>>::empty() =~= words(x));
    } else {
        let yd = y.drop_last();
        lemma_words_after_whitespace(x, yd);
        let xy = x + y;
        assert(xy.drop_last() =~= x + yd);
        assert(xy.last() == y.last());
        let c = y.last();
        lemma_words_shape(yd);
        if char_is_whitespace(c) {
        } else if yd.len() > 0 && !char_is_whitespace(yd.last()) {
            assert(xy[xy.len() - 2] == yd.last());
            assert(y[y.len() - 2] == yd.last());
            assert(words(xy) =~= words(x) + words(y));
        } else if yd.len() > 0 {
            assert(xy[xy.len() - 2] == yd.last());
            assert(y[y.len() - 2] == yd.last());
            assert(words(xy) =~= words(x) + words(y));
        } else {
            assert(xy[xy.len() - 2] == x.last());
            assert(yd =~= Seq::<char>::empty());
            assert(words(xy) =~= words(x) + words(y));
        }
    }
}

/// A single word is title-cased by replacing its first character with its
/// whole Unicode uppercase mapping and every other character with the first
/// character of its Unicode lowercase mapping.
pub proof fn lemma_titleize_one_word(w: Seq<char>)
    requires
        w.len() > 0,
        forall|i: int| 0 <= i < w.len() ==> !char_is_whitespace(#[trigger] w[i]),
    ensures
        titleized(w) == char_to_uppercase(w[0]) + w.drop_first().map_values(
            |c: char| char_to_lowercase(c)[0],
        ),
{
    lemma_words_of_word(w);
    assert(words(w).map_values(|x: Seq<char>| title_word(x)) =~= seq![title_word(w)]);
    assert(w.drop_first().map_values(|c: char| lower_first(c)) =~= w.drop_first().map_values(
        |c: char| char_to_lowercase(c)[0],
    ));
}

/// A string of whitespace alone title-cases to nothing.
pub proof fn lemma_titleize_blank(s: Seq<char>)
    requires
        all_whitespace(s),
    ensures
        titleized(s).len() == 0,
{
    lemma_words_empty_iff_blank(s);
    assert(words(s).map_values(|x: Seq<char>| title_word(x)).len() == 0);
}

/// Two parts of a string around a whitespace character are title-cased on
/// their own and joined by one space; a part of whitespace alone adds
/// nothing.
pub proof fn lemma_titleize_split(a: Seq<char>, sp: char, b: Seq<char>)
    requires
        char_is_whitespace(sp),
    ensures
        !all_whitespace(a) && !all_whitespace(b) ==> titleized(a + seq![sp] + b) == titleized(a)
            + seq![' '] + titleized(b),
        all_whitespace(a) ==> titleized(a + seq![sp] + b) == titleized(b),
        all_whitespace(b) ==> titleized(a + seq![sp] + b) == titleized(a),
{
    let x = a + seq![sp];
    assert(x.last() == sp);
    lemma_words_after_whitespace(x, b);
    assert(x.drop_last() =~= a);
    assert(words(x) == words(a));
    assert(a + seq![sp] + b =~= x + b);
    let tw = |w: Seq<char>| title_word(w);
    let wa = words(a);
    let wb = words(b);
    assert((wa + wb).map_values(tw) =~= wa.map_values(tw) + wb.map_values(tw));
    lemma_words_empty_iff_blank(a);
    lemma_words_empty_iff_blank(b);
    if wa.len() == 0 {
        assert(wa.map_values(tw) + wb.map_values(tw) =~= wb.map_values(tw));
    }
    if wb.len() == 0 {
        assert(wa.map_values(tw) + wb.map_values(tw) =~= wa.map_values(tw));
    }
    if wa.len() > 0 && wb.len() > 0 {
        lemma_join_with_concat(wa.map_values(tw), wb.map_values(tw), seq![' ']);
    }
}

/// Title-cases a string: each whitespace-separated word gets an uppercase
/// first letter and lowercase other letters; words are joined by single
/// spaces.
pub fn titleize(s: &str) -> (r: String)
    ensures
        r@ == titleized(s@),
        is_ascii_chars(s@) ==> r@ == ascii_titleized(s@),
{
    let mut out = String::new();
    let mut any = false;
    let mut in_word = false;
    let ghost st = s@;
    let ghost tw = |w: Seq<char>| title_word(w);
    let ghost atw = |w: Seq<char>| ascii_title_word(w);
    proof {
        assert(st.take(0) =~= Seq::<char>::empty());
        assert(words(st.take(0)).map_values(tw) =~= Seq::<Seq<char>>::empty());
        assert(words(st.take(0)).map_values(atw) =~= Seq::<Seq<char>>::empty());
    }
    for c in it: s.chars()
        invariant
            st == s@,
            it.seq() == st,
            tw == (|w: Seq<char>| title_word(w)),
            any == (words(st.take(it.index() as int)).len() > 0),
            in_word == (it.index() > 0 && !char_is_whitespace(st[it.index() - 1])),
            out@ == join_with(words(st.take(it.index() as int)).map_values(tw), seq![' ']),
            atw == (|w: Seq<char>| ascii_title_word(w)),
            is_ascii_chars(st) ==> out@ == join_with(
                words(st.take(it.index() as int)).map_values(atw),
                seq![' '],
            ),
    {
        let ghost i = it.index() as int;
        let ghost pre = st.take(i);
        let ghost post = st.take(i + 1);
        let ghost wp = words(pre);
        proof {
            assert(post.drop_last() =~= pre);
            assert(post.last() == c);
            if i > 0 {
                assert(post[post.len() - 2] == st[i - 1]);
            }
            lemma_words_shape(pre);
            if is_ascii_chars(st) {
                assert('\0' <= st[i] <= '\u{7F}');
                assert(is_ascii_char(c));
            }
        }
        if is_whitespace(c) {
            in_word = false;
            proof {
                assert(words(post) == wp);
            }
        } else if in_word {
            let lower = lowercase_of_char(c);
            push_char(&mut out, lower[0]);
            proof {
                let last = wp.last();
                assert(last.len() > 0);
                let wq = words(post);
                assert(wq == wp.update(wp.len() - 1, last.push(c)));
                assert(last.push(c).drop_first() =~= last.drop_first().push(c));
                assert(title_word(last.push(c)) =~= title_word(last) + seq![lower_first(c)]);
                assert(wq.map_values(tw) =~= wp.map_values(tw).update(
                    wp.len() - 1,
                    wp.map_values(tw).last() + seq![lower_first(c)],
                ));
                lemma_join_extend_last(wp.map_values(tw), seq![' '], seq![lower_first(c)]);
                if is_ascii_chars(st) {
                    assert(lower_first(c) == ascii_lower(c));
                    assert(ascii_title_word(last.push(c)) =~= ascii_title_word(last) + seq![
                        ascii_lower(c),
                    ]);
                    assert(wq.map_values(atw) =~= wp.map_values(atw).update(
                        wp.len() - 1,
                        wp.map_values(atw).last() + seq![ascii_lower(c)],
                    ));
                    lemma_join_extend_last(wp.map_values(atw), seq![' '], seq![ascii_lower(c)]);
                }
            }
        } else {
            let upper = uppercase_of_char(c);
            if any {
                push_char(&mut out, ' ');
            }
            out.append(upper.as_str());
            proof {
                let wq = words(post);
                assert(wq == wp.push(seq![c]));
                assert(seq![c].drop_first() =~= Seq::<char>::empty());
                assert(title_word(seq![c]) =~= char_to_uppercase(c));
                assert(wq.map_values(tw) =~= wp.map_values(tw).push(char_to_uppercase(c)));
                assert(wq.map_values(tw).drop_last() =~= wp.map_values(tw));
                if !any {
                    assert(wp.map_values(tw).len() == 0);
                    assert(out@ =~= char_to_uppercase(c));
                }
                if is_ascii_chars(st) {
                    assert(ascii_title_word(seq![c]) =~= seq![ascii_upper(c)]);
                    assert(wq.map_values(atw) =~= wp.map_values(atw).push(seq![ascii_upper(c)]));
                    assert(wq.map_values(atw).drop_last() =~= wp.map_values(atw));
                    if !any {
                        assert(wp.map_values(atw).len() == 0);
                    }
                }
            }
            any = true;
            in_word = true;
        }
    }
    proof {
        assert(st.take(st.len() as int) =~= st);
    }
    out
}

} // verus!
