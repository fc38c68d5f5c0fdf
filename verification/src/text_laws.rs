//! What holds of the functions on texts, whatever the text.

use crate::text;
use vstd::prelude::*;

verus! {

/// The character is nowhere in the text.
pub open spec fn lacks(s: Seq<char>, c: char) -> bool {
    forall|i: int| 0 <= i < s.len() ==> #[trigger] s[i] != c
}

/// The text is white space throughout.
pub open spec fn is_blank(s: Seq<char>) -> bool {
    forall|i: int| 0 <= i < s.len() ==> text::is_space(#[trigger] s[i])
}

/// Blanks, tabulators and line endings are white space, and nothing that is printed in ASCII is;
/// beyond ASCII, white space is the blanks of all widths and the endings of lines and paragraphs.
pub proof fn law_white_space(c: char)
    ensures
        c == ' ' || c == '\t' || c == '\n' || c == '\r' ==> text::is_space(c),
        '!' <= c <= '~' ==> !text::is_space(c),
        c > '~' ==> (text::is_space(c) <==> c == '\u{85}' || c == '\u{a0}' || c == '\u{1680}'
            || '\u{2000}' <= c <= '\u{200a}' || c == '\u{2028}' || c == '\u{2029}' || c
            == '\u{202f}' || c == '\u{205f}' || c == '\u{3000}'),
        c < ' ' ==> (text::is_space(c) <==> '\t' <= c <= '\r'),
{
}

pub proof fn lemma_trim_start(s: Seq<char>) -> (k: int)
    ensures
        0 <= k <= s.len(),
        is_blank(s.take(k)),
        text::trim_start_of(s) == s.skip(k),
        text::leading_space(s) == s.take(k),
        k < s.len() ==> !text::is_space(s[k]),
    decreases s.len(),
{
    if s.len() > 0 && text::is_space(s[0]) {
        let rest = s.skip(1);
        let k = lemma_trim_start(rest);
        assert(rest.skip(k) =~= s.skip(k + 1));
        assert(s.take(k + 1) =~= seq![s[0]] + rest.take(k));
        assert forall|i: int| 0 <= i < k + 1 implies text::is_space(#[trigger] s.take(k + 1)[i]) by {
            if i > 0 {
                assert(s.take(k + 1)[i] == rest.take(k)[i - 1]);
            }
        }
        k + 1
    } else {
        assert(s.skip(0) =~= s);
        assert(s.take(0) =~= Seq::empty());
        0
    }
}

pub proof fn lemma_trim_end(s: Seq<char>) -> (k: int)
    ensures
        0 <= k <= s.len(),
        is_blank(s.skip(k)),
        text::trim_end_of(s) == s.take(k),
        k > 0 ==> !text::is_space(s[k - 1]),
    decreases s.len(),
{
    if s.len() > 0 && text::is_space(s.last()) {
        let rest = s.drop_last();
        let k = lemma_trim_end(rest);
        assert(rest.take(k) =~= s.take(k));
        assert forall|i: int| 0 <= i < s.len() - k implies text::is_space(
            #[trigger] s.skip(k)[i],
        ) by {
            if i < s.len() - k - 1 {
                assert(s.skip(k)[i] == rest.skip(k)[i]);
            }
        }
        k
    } else {
        assert(s.take(s.len() as int) =~= s);
        s.len() as int
    }
}

/// Trimming takes white space from the ends of a text and nothing else, and leaves none there.
pub proof fn law_trimming_takes_white_space(s: Seq<char>)
    ensures
        exists|before: Seq<char>, after: Seq<char>|
            is_blank(before) && is_blank(after) && s == #[trigger] (before + text::trim_of(s)
                + after),
        exists|before: Seq<char>|
            is_blank(before) && s == #[trigger] (before + text::trim_start_of(s)),
        text::trim_of(s).len() > 0 ==> !text::is_space(text::trim_of(s)[0])
            && !text::is_space(text::trim_of(s).last()),
        text::trim_start_of(s).len() > 0 ==> !text::is_space(text::trim_start_of(s)[0]),
        s == text::leading_space(s) + text::trim_start_of(s),
{
    let k = lemma_trim_start(s);
    let t = text::trim_start_of(s);
    let m = lemma_trim_end(t);
    let r = text::trim_of(s);
    assert(s =~= s.take(k) + t);
    assert(s =~= s.take(k) + r + t.skip(m));
}

/// A text with white space around it is found by trimming.
pub proof fn law_trimming_finds_the_text(before: Seq<char>, s: Seq<char>, after: Seq<char>)
    requires
        is_blank(before),
        is_blank(after),
        s.len() > 0 ==> !text::is_space(s[0]) && !text::is_space(s.last()),
    ensures
        text::trim_of(before + s + after) == s,
        s.len() > 0 ==> text::trim_start_of(before + s) == s,
        s.len() > 0 ==> text::leading_space(before + s) == before,
{
    let all = before + s + after;
    let k = lemma_trim_start(all);
    let t = text::trim_start_of(all);
    let m = lemma_trim_end(t);
    if s.len() > 0 {
        assert(all[before.len() as int] == s[0]);
        if k < before.len() {
            assert(all[k] == before[k]);
        } else if k > before.len() {
            assert(all.take(k)[before.len() as int] == s[0]);
        }
        assert(t =~= s + after);
        assert(t[s.len() - 1] == s.last());
        if m < s.len() {
            assert(t.skip(m)[s.len() - 1 - m] == s.last());
        } else if m > s.len() {
            assert(t[m - 1] == after[m - 1 - s.len()]);
        }
        assert(t.take(m) =~= s);
        let other = before + s;
        let j = lemma_trim_start(other);
        assert(other[before.len() as int] == s[0]);
        if j < before.len() {
            assert(other[j] == before[j]);
        } else if j > before.len() {
            assert(other.take(j)[before.len() as int] == s[0]);
        }
        assert(other.skip(j) =~= s);
        assert(other.take(j) =~= before);
    } else {
        if t.len() > 0 && m > 0 {
            let i = k + m - 1;
            assert(t[m - 1] == all[i]);
            if i < before.len() {
                assert(all[i] == before[i]);
            } else {
                assert(all[i] == after[i - before.len()]);
            }
        }
        assert(t.take(m) =~= s);
    }
}

/// Joining lists of texts one after the other is joining what each of them joins to.
pub proof fn law_joining(a: Seq<Seq<char>>, b: Seq<Seq<char>>, sep: Seq<char>, s: Seq<char>)
    ensures
        text::join_of(Seq::empty(), sep) == Seq::<char>::empty(),
        text::join_of(seq![s], sep) == s,
        a.len() > 0 && b.len() > 0 ==> text::join_of(a + b, sep) == text::join_of(a, sep) + sep
            + text::join_of(b, sep),
    decreases b.len(),
{
    if a.len() > 0 && b.len() > 0 {
        let all = a + b;
        assert(all.drop_last() =~= a + b.drop_last());
        if b.len() == 1 {
            assert(a + b.drop_last() =~= a);
        } else {
            law_joining(a, b.drop_last(), sep, s);
            assert(text::join_of(a, sep) + sep + text::join_of(b.drop_last(), sep) + sep + b.last()
                =~= text::join_of(a, sep) + sep + (text::join_of(b.drop_last(), sep) + sep
                + b.last()));
        }
    }
}

pub proof fn lemma_first_index_is(before: Seq<char>, c: char, after: Seq<char>)
    requires
        lacks(before, c),
    ensures
        text::first_index(before + seq![c] + after, c) == Some(before.len() as int),
        text::first_index(before, c) is None,
{
    let all = before + seq![c] + after;
    text::lemma_first_index(all, c);
    text::lemma_first_index(before, c);
    assert(all[before.len() as int] == c);
    if let Some(i) = text::first_index(all, c) {
        if i < before.len() {
            assert(all[i] == before[i]);
        }
    }
}

/// A text is split at a character that stands in it, and at no other place: the pieces hold it
/// nowhere, and joined with it they are the text.
pub proof fn law_splitting_is_undone_by_joining(s: Seq<char>, sep: char)
    ensures
        text::split_of(s, sep).len() > 0,
        forall|i: int|
            0 <= i < text::split_of(s, sep).len() ==> lacks(#[trigger] text::split_of(s, sep)[i], sep),
        text::join_of(text::split_of(s, sep), seq![sep]) == s,
    decreases s.len(),
{
    text::lemma_first_index(s, sep);
    match text::first_index(s, sep) {
        Some(i) => {
            let rest = s.skip(i + 1);
            law_splitting_is_undone_by_joining(rest, sep);
            let first = seq![s.take(i)];
            let others = text::split_of(rest, sep);
            law_joining(first, others, seq![sep], s.take(i));
            assert(s =~= s.take(i) + seq![sep] + rest);
            let all = text::split_of(s, sep);
            assert forall|k: int| 0 <= k < all.len() implies lacks(#[trigger] all[k], sep) by {
                if k > 0 {
                    assert(all[k] == others[k - 1]);
                }
            }
        },
        None => {
            assert(text::split_of(s, sep) =~= seq![s]);
            law_joining(seq![s], seq![s], seq![sep], s);
        },
    }
}

/// Texts that are joined with a character that none of them holds are what splitting at it gives.
pub proof fn law_joining_is_undone_by_splitting(pieces: Seq<Seq<char>>, sep: char)
    requires
        pieces.len() > 0,
        forall|i: int| 0 <= i < pieces.len() ==> lacks(#[trigger] pieces[i], sep),
    ensures
        text::split_of(text::join_of(pieces, seq![sep]), sep) == pieces,
    decreases pieces.len(),
{
    let first = pieces[0];
    let rest = pieces.skip(1);
    if rest.len() == 0 {
        lemma_first_index_is(first, sep, first);
        assert(pieces =~= seq![first]);
    } else {
        assert forall|i: int| 0 <= i < rest.len() implies lacks(#[trigger] rest[i], sep) by {
            assert(rest[i] == pieces[i + 1]);
        }
        law_joining_is_undone_by_splitting(rest, sep);
        law_joining(seq![first], rest, seq![sep], first);
        assert(seq![first] + rest =~= pieces);
        let tail = text::join_of(rest, seq![sep]);
        let all = first + seq![sep] + tail;
        assert(text::join_of(pieces, seq![sep]) == all);
        lemma_first_index_is(first, sep, tail);
        assert(all.take(first.len() as int) =~= first);
        assert(all.skip(first.len() + 1int) =~= tail);
    }
}

/// A text is cut at the first place of a character into what stands before it and after it.
pub proof fn law_cutting_once(before: Seq<char>, c: char, after: Seq<char>)
    requires
        lacks(before, c),
    ensures
        text::split_once_of(before + seq![c] + after, c) == Some((before, after)),
        text::split_once_of(before, c) is None,
{
    let all = before + seq![c] + after;
    lemma_first_index_is(before, c, after);
    assert(all.take(before.len() as int) =~= before);
    assert(all.skip(before.len() + 1int) =~= after);
}

/// What follows the last place of a character is found, and a text without it is kept whole.
pub proof fn law_after_the_last(before: Seq<char>, c: char, after: Seq<char>)
    requires
        lacks(after, c),
    ensures
        text::after_last_of(before + seq![c] + after, c) == after,
        text::after_last_of(after, c) == after,
{
    let all = before + seq![c] + after;
    text::lemma_last_index(all, c);
    text::lemma_last_index(after, c);
    assert(all[before.len() as int] == c);
    if let Some(i) = text::last_index(all, c) {
        if i > before.len() {
            assert(all[i] == after[i - before.len() - 1]);
        }
    }
    assert(all.skip(before.len() + 1int) =~= after);
}

/// A line ends at its line feed, and the carriage return before that belongs to the ending; what
/// follows is read the same way. A last line needs no ending.
pub proof fn law_lines(line: Seq<char>, rest: Seq<char>)
    requires
        lacks(line, '\n'),
    ensures
        text::lines_of(line + seq!['\r', '\n'] + rest) == seq![line] + text::lines_of(rest),
        !(line.len() > 0 && line.last() == '\r') ==> text::lines_of(line + seq!['\n'] + rest)
            == seq![line] + text::lines_of(rest),
        line.len() > 0 ==> text::lines_of(line) == seq![line],
        text::lines_of(Seq::empty()).len() == 0,
{
    let returned = line.push('\r');
    assert(line + seq!['\r', '\n'] + rest =~= returned + seq!['\n'] + rest);
    lemma_first_index_is(returned, '\n', rest);
    lemma_first_index_is(line, '\n', rest);
    let all = returned + seq!['\n'] + rest;
    let plain = line + seq!['\n'] + rest;
    assert(all.take(returned.len() as int) =~= returned);
    assert(all.skip(returned.len() + 1int) =~= rest);
    assert(returned.drop_last() =~= line);
    assert(plain.take(line.len() as int) =~= line);
    assert(plain.skip(line.len() + 1int) =~= rest);
}

/// A text holds another where it is made of something, that one, and something more.
pub proof fn law_containing(s: Seq<char>, sub: Seq<char>)
    ensures
        text::contains_text(s, sub) <==> exists|before: Seq<char>, after: Seq<char>|
            s == #[trigger] (before + sub + after),
        text::begins_with(s, sub) <==> exists|after: Seq<char>| s == #[trigger] (sub + after),
        text::ends_in(s, sub) <==> exists|before: Seq<char>| s == #[trigger] (before + sub),
{
    if text::contains_text(s, sub) {
        let i = choose|i: int| text::occurs_at(s, sub, i);
        assert(s =~= s.take(i) + sub + s.skip(i + sub.len())) by {
            assert forall|k: int| 0 <= k < sub.len() implies s[i + k] == sub[k] by {
                assert(s.subrange(i, i + sub.len())[k] == s[i + k]);
            }
        }
    }
    if exists|before: Seq<char>, after: Seq<char>| s == #[trigger] (before + sub + after) {
        let (before, after) = choose|before: Seq<char>, after: Seq<char>|
            s == #[trigger] (before + sub + after);
        assert(s.subrange(before.len() as int, (before.len() + sub.len()) as int) =~= sub);
        assert(text::occurs_at(s, sub, before.len() as int));
    }
    if text::begins_with(s, sub) {
        assert(s =~= sub + s.skip(sub.len() as int));
    }
    if exists|after: Seq<char>| s == #[trigger] (sub + after) {
        let after = choose|after: Seq<char>| s == #[trigger] (sub + after);
        assert((sub + after).take(sub.len() as int) =~= sub);
    }
    if text::ends_in(s, sub) {
        assert(s =~= s.take(s.len() - sub.len()) + sub);
    }
    if exists|before: Seq<char>| s == #[trigger] (before + sub) {
        let before = choose|before: Seq<char>| s == #[trigger] (before + sub);
        assert((before + sub).skip(before.len() as int) =~= sub);
    }
}

/// What begins a text can be taken from it, and what ends it too.
pub proof fn law_affixes(prefix: Seq<char>, s: Seq<char>, suffix: Seq<char>)
    ensures
        text::after_prefix(prefix + s, prefix) == Some(s),
        text::before_suffix(s + suffix, suffix) == Some(s),
        text::after_prefix(s, prefix) matches Some(rest) ==> s == prefix + rest,
        text::before_suffix(s, suffix) matches Some(rest) ==> s == rest + suffix,
{
    assert((prefix + s).take(prefix.len() as int) =~= prefix);
    assert((prefix + s).skip(prefix.len() as int) =~= s);
    assert((s + suffix).skip(s.len() as int) =~= suffix);
    assert((s + suffix).take(s.len() as int) =~= s);
    if text::begins_with(s, prefix) {
        assert(s =~= prefix + s.skip(prefix.len() as int));
    }
    if text::ends_in(s, suffix) {
        assert(s =~= s.take(s.len() - suffix.len()) + suffix);
    }
}

/// Stripping a character takes it from an end as often as it stands there, and nothing else.
pub proof fn law_stripping(n: nat, c: char, s: Seq<char>)
    requires
        s.len() > 0 ==> s[0] != c && s.last() != c,
    ensures
        text::strip_leading(Seq::new(n, |i: int| c) + s, c) == s,
        text::strip_trailing(s + Seq::new(n, |i: int| c), c) == s,
    decreases n,
{
    let run = Seq::new(n, |i: int| c);
    if n == 0 {
        assert(run + s =~= s);
        assert(s + run =~= s);
    } else {
        let less = Seq::new((n - 1) as nat, |i: int| c);
        law_stripping((n - 1) as nat, c, s);
        assert((run + s).skip(1) =~= less + s);
        assert((run + s)[0] == c);
        assert((s + run).drop_last() =~= s + less);
        assert((s + run).last() == c);
    }
}

/// The first occurrence of a text is replaced, and what follows it is treated the same way; a
/// text without one is kept.
pub proof fn law_replacing(before: Seq<char>, from: Seq<char>, after: Seq<char>, to: Seq<char>)
    requires
        from.len() > 0,
        forall|i: int|
            0 <= i < before.len() ==> !#[trigger] text::occurs_at(before + from + after, from, i),
    ensures
        text::replace_of(before + from + after, from, to) == before + to + text::replace_of(
            after,
            from,
            to,
        ),
        !text::contains_text(before, from) ==> text::replace_of(before, from, to) == before,
    decreases before.len(),
{
    let all = before + from + after;
    let tail = text::replace_of(after, from, to);
    lemma_replacing_nothing(before, from, to);
    if before.len() == 0 {
        assert(all =~= from + after);
        assert(all.take(from.len() as int) =~= from);
        assert(all.skip(from.len() as int) =~= after);
        assert(before + to + tail =~= to + tail);
    } else {
        let rest = before.skip(1);
        let less = rest + from + after;
        assert(all.skip(1) =~= less);
        assert(!text::begins_with(all, from)) by {
            assert(!text::occurs_at(all, from, 0));
            assert(from.len() <= all.len() ==> all.take(from.len() as int) =~= all.subrange(
                0,
                from.len() as int,
            ));
        }
        assert forall|i: int| 0 <= i < rest.len() implies !#[trigger] text::occurs_at(
            less,
            from,
            i,
        ) by {
            assert(!text::occurs_at(all, from, i + 1));
            if i + from.len() <= less.len() {
                assert(less.subrange(i, i + from.len()) =~= all.subrange(
                    i + 1,
                    i + 1 + from.len(),
                ));
            }
        }
        law_replacing(rest, from, after, to);
        assert(seq![all[0]] + (rest + to + tail) =~= before + to + tail);
    }
}

pub proof fn lemma_replacing_nothing(s: Seq<char>, from: Seq<char>, to: Seq<char>)
    requires
        from.len() > 0,
    ensures
        !text::contains_text(s, from) ==> text::replace_of(s, from, to) == s,
    decreases s.len(),
{
    if !text::contains_text(s, from) && s.len() > 0 {
        assert(!text::occurs_at(s, from, 0));
        assert(from.len() <= s.len() ==> s.take(from.len() as int) =~= s.subrange(
            0,
            from.len() as int,
        ));
        let rest = s.skip(1);
        if text::contains_text(rest, from) {
            let i = choose|i: int| text::occurs_at(rest, from, i);
            assert(s.subrange(i + 1, i + 1 + from.len()) =~= rest.subrange(i, i + from.len()));
            assert(text::occurs_at(s, from, i + 1));
        }
        lemma_replacing_nothing(rest, from, to);
        assert(seq![s[0]] + rest =~= s);
    }
}

/// The number that decimal digits stand for.
pub open spec fn number_of(digits: Seq<char>) -> int
    decreases digits.len(),
{
    if digits.len() == 0 {
        0
    } else {
        10 * number_of(digits.drop_last()) + (digits.last() as int - '0' as int)
    }
}

/// A number in decimal notation is made of digits, without a zero before others, and stands for
/// that number; so different numbers are written differently.
pub proof fn law_decimal_notation(n: nat)
    ensures
        number_of(text::decimal_of(n)) == n,
        text::decimal_of(n).len() > 0,
        forall|i: int|
            0 <= i < text::decimal_of(n).len() ==> '0' <= #[trigger] text::decimal_of(n)[i] <= '9',
        text::decimal_of(n)[0] == '0' ==> n == 0,
    decreases n,
{
    reveal_with_fuel(number_of, 2);
    if n < 10 {
        assert(seq![text::digit_of(n)].drop_last() =~= Seq::empty());
    } else {
        law_decimal_notation(n / 10);
        let front = text::decimal_of(n / 10);
        assert(front.push(text::digit_of(n % 10)).drop_last() =~= front);
        assert(front.push(text::digit_of(n % 10))[0] == front[0]);
    }
}

/// Different numbers have different decimal notations.
pub proof fn law_decimal_tells_numbers_apart(a: nat, b: nat)
    requires
        text::decimal_of(a) == text::decimal_of(b),
    ensures
        a == b,
{
    law_decimal_notation(a);
    law_decimal_notation(b);
}

/// Texts are the same but for the case of ASCII letters exactly where they are as long, and each
/// two characters are the same or a capital letter of ASCII and its small letter.
pub proof fn law_ascii_case(a: Seq<char>, b: Seq<char>)
    ensures
        text::same_ignoring_ascii_case(a, b) <==> a.len() == b.len() && forall|i: int|
            0 <= i < a.len() ==> #[trigger] a[i] == b[i] || ('A' <= a[i] <= 'Z' && b[i] as int
                == a[i] as int + 32) || ('A' <= b[i] <= 'Z' && a[i] as int == b[i] as int + 32),
{
    let x = text::ascii_lower_of(a);
    let y = text::ascii_lower_of(b);
    if text::same_ignoring_ascii_case(a, b) {
        assert(x.len() == y.len());
        assert forall|i: int| 0 <= i < a.len() implies #[trigger] a[i] == b[i] || ('A' <= a[i] <= 'Z'
            && b[i] as int == a[i] as int + 32) || ('A' <= b[i] <= 'Z' && a[i] as int == b[i] as int
            + 32) by {
            assert(x[i] == y[i]);
        }
    }
    if a.len() == b.len() && forall|i: int|
        0 <= i < a.len() ==> #[trigger] a[i] == b[i] || ('A' <= a[i] <= 'Z' && b[i] as int
            == a[i] as int + 32) || ('A' <= b[i] <= 'Z' && a[i] as int == b[i] as int + 32) {
        assert(x =~= y);
    }
}

/// Texts are ordered by the first character in which they differ; what a text begins with comes
/// before it.
pub proof fn law_text_order(p: Seq<char>, x: char, y: char, a: Seq<char>, b: Seq<char>)
    ensures
        x < y ==> text::text_less(p + seq![x] + a, p + seq![y] + b),
        x < y ==> !text::text_less(p + seq![y] + b, p + seq![x] + a),
        text::text_less(p, p + seq![x] + a),
        !text::text_less(p, p),
    decreases p.len(),
{
    let one = p + seq![x] + a;
    let other = p + seq![y] + b;
    if p.len() > 0 {
        let q = p.skip(1);
        law_text_order(q, x, y, a, b);
        assert(one.skip(1) =~= q + seq![x] + a);
        assert(other.skip(1) =~= q + seq![y] + b);
    }
}

/// Lists are filtered alike by what agrees on their members.
pub proof fn lemma_same_filter<A>(list: Seq<A>, p: spec_fn(A) -> bool, q: spec_fn(A) -> bool)
    requires
        forall|i: int| 0 <= i < list.len() ==> p(#[trigger] list[i]) == q(list[i]),
    ensures
        list.filter(p) == list.filter(q),
    decreases list.len(),
{
    reveal(Seq::filter);
    if list.len() > 0 {
        let front = list.drop_last();
        assert forall|i: int| 0 <= i < front.len() implies p(#[trigger] front[i]) == q(
            front[i],
        ) by {
            assert(front[i] == list[i]);
        }
        assert(p(list[list.len() - 1]) == q(list[list.len() - 1]));
        lemma_same_filter(front, p, q);
    }
}

/// What is in a filtered list was in the list and passed the filter.
pub proof fn lemma_filtered<A>(list: Seq<A>, p: spec_fn(A) -> bool, x: A)
    ensures
        list.filter(p).contains(x) <==> list.contains(x) && p(x),
    decreases list.len(),
{
    reveal(Seq::filter);
    let all = list.filter(p);
    if list.len() > 0 {
        let front = list.drop_last();
        lemma_filtered(front, p, x);
        let rest = front.filter(p);
        if rest.contains(x) {
            assert(all[rest.index_of(x)] == x);
        }
        if front.contains(x) {
            assert(list[front.index_of(x)] == x);
        }
        if list.contains(x) && !front.contains(x) {
            let k = list.index_of(x);
            if k < front.len() {
                assert(front[k] == x);
            }
            if p(x) {
                assert(all[rest.len() as int] == x);
            }
        }
        if all.contains(x) && !rest.contains(x) {
            let k = all.index_of(x);
            if k < rest.len() {
                assert(rest[k] == x);
            }
            assert(list[list.len() - 1] == x);
        }
    } else {
        assert(all =~= list);
    }
}

/// A text without some bytes at its end is what stands before characters that take up as many.
pub proof fn law_cutting_bytes(s: Seq<char>, n: nat)
    ensures
        text::without_bytes(s, n) matches Some(rest) ==> exists|tail: Seq<char>|
            s == #[trigger] (rest + tail) && vstd::utf8::encode_utf8(tail).len() == n,
{
    let bytes = vstd::utf8::encode_utf8(s);
    let end = bytes.len() - n;
    if let Some(rest) = text::without_bytes(s, n) {
        vstd::utf8::encode_utf8_valid_utf8(s);
        vstd::utf8::encode_utf8_decode_utf8(s);
        vstd::utf8::valid_utf8_split(bytes, end);
        vstd::utf8::decode_utf8_split(bytes, end);
        let behind = bytes.subrange(end, bytes.len() as int);
        let tail = vstd::utf8::decode_utf8(behind);
        vstd::utf8::decode_utf8_encode_utf8(behind);
        assert(s == rest + tail);
    }
}

} // verus!
