//! Text as a sequence of characters: trimming, splitting, searching, replacing and joining.

use vstd::prelude::*;

verus! {

/// Appends one character to a string (`String::push`).
pub assume_specification[ String::push ](s: &mut String, c: char)
    ensures
        final(s)@ == old(s)@.push(c),
;

/// The characters of every string of a list.
pub open spec fn texts(list: Seq<String>) -> Seq<Seq<char>> {
    Seq::new(list.len(), |i: int| list[i]@)
}

/// The characters of an optional string.
pub open spec fn opt_text(s: Option<String>) -> Option<Seq<char>> {
    match s {
        Some(t) => Some(t@),
        None => None,
    }
}

/// Characters with the Unicode property `White_Space`.
pub open spec fn is_space(c: char) -> bool {
    let n = c as u32;
    ||| 0x9 <= n <= 0xd
    ||| n == 0x20
    ||| n == 0x85
    ||| n == 0xa0
    ||| n == 0x1680
    ||| 0x2000 <= n <= 0x200a
    ||| n == 0x2028
    ||| n == 0x2029
    ||| n == 0x202f
    ||| n == 0x205f
    ||| n == 0x3000
}

/// `s` without its leading white space.
pub open spec fn trim_start_of(s: Seq<char>) -> Seq<char>
    decreases s.len(),
{
    if s.len() > 0 && is_space(s[0]) {
        trim_start_of(s.skip(1))
    } else {
        s
    }
}

/// `s` without its trailing white space.
pub open spec fn trim_end_of(s: Seq<char>) -> Seq<char>
    decreases s.len(),
{
    if s.len() > 0 && is_space(s.last()) {
        trim_end_of(s.drop_last())
    } else {
        s
    }
}

/// `s` without leading and trailing white space.
pub open spec fn trim_of(s: Seq<char>) -> Seq<char> {
    trim_end_of(trim_start_of(s))
}

/// `s` without any leading `c`.
pub open spec fn strip_leading(s: Seq<char>, c: char) -> Seq<char>
    decreases s.len(),
{
    if s.len() > 0 && s[0] == c {
        strip_leading(s.skip(1), c)
    } else {
        s
    }
}

/// `s` without any trailing `c`.
pub open spec fn strip_trailing(s: Seq<char>, c: char) -> Seq<char>
    decreases s.len(),
{
    if s.len() > 0 && s.last() == c {
        strip_trailing(s.drop_last(), c)
    } else {
        s
    }
}

/// The leading white space of `s`.
pub open spec fn leading_space(s: Seq<char>) -> Seq<char>
    decreases s.len(),
{
    if s.len() > 0 && is_space(s[0]) {
        seq![s[0]] + leading_space(s.skip(1))
    } else {
        Seq::empty()
    }
}

/// Position of the first `c` in `s`.
pub open spec fn first_index(s: Seq<char>, c: char) -> Option<int>
    decreases s.len(),
{
    if s.len() == 0 {
        None
    } else if s[0] == c {
        Some(0)
    } else {
        match first_index(s.skip(1), c) {
            Some(i) => Some(i + 1),
            None => None,
        }
    }
}

/// Position of the last `c` in `s`.
pub open spec fn last_index(s: Seq<char>, c: char) -> Option<int>
    decreases s.len(),
{
    if s.len() == 0 {
        None
    } else if s.last() == c {
        Some(s.len() - 1)
    } else {
        last_index(s.drop_last(), c)
    }
}

/// What follows the last `c` in `s`; all of `s` where there is none.
pub open spec fn after_last_of(s: Seq<char>, c: char) -> Seq<char> {
    match last_index(s, c) {
        Some(i) => s.skip(i + 1),
        None => s,
    }
}

/// The pieces of `s` between the occurrences of `sep`.
pub open spec fn split_of(s: Seq<char>, sep: char) -> Seq<Seq<char>>
    decreases s.len(),
{
    match first_index(s, sep) {
        Some(i) => if 0 <= i < s.len() {
            seq![s.take(i)] + split_of(s.skip(i + 1), sep)
        } else {
            seq![s]
        },
        None => seq![s],
    }
}

/// One line without its line ending: a line feed, or a carriage return and a line feed.
pub open spec fn line_body(s: Seq<char>) -> Seq<char> {
    if s.len() > 0 && s.last() == '\r' {
        s.drop_last()
    } else {
        s
    }
}

/// The lines of `s` without their endings; a last line without a line feed keeps its
/// carriage return, and nothing follows a final line feed.
pub open spec fn lines_of(s: Seq<char>) -> Seq<Seq<char>>
    decreases s.len(),
{
    if s.len() == 0 {
        Seq::empty()
    } else {
        match first_index(s, '\n') {
            Some(i) => if 0 <= i < s.len() {
                seq![line_body(s.take(i))] + lines_of(s.skip(i + 1))
            } else {
                seq![s]
            },
            None => seq![s],
        }
    }
}

/// `sub` stands in `s` at position `i`.
pub open spec fn occurs_at(s: Seq<char>, sub: Seq<char>, i: int) -> bool {
    &&& 0 <= i
    &&& i + sub.len() <= s.len()
    &&& s.subrange(i, i + sub.len()) == sub
}

/// `sub` stands somewhere in `s`.
pub open spec fn contains_text(s: Seq<char>, sub: Seq<char>) -> bool {
    exists|i: int| occurs_at(s, sub, i)
}

/// `s` begins with `prefix`.
pub open spec fn begins_with(s: Seq<char>, prefix: Seq<char>) -> bool {
    prefix.len() <= s.len() && s.take(prefix.len() as int) == prefix
}

/// `s` ends with `suffix`.
pub open spec fn ends_in(s: Seq<char>, suffix: Seq<char>) -> bool {
    suffix.len() <= s.len() && s.skip(s.len() - suffix.len()) == suffix
}

/// What follows `prefix` in `s`.
pub open spec fn after_prefix(s: Seq<char>, prefix: Seq<char>) -> Option<Seq<char>> {
    if begins_with(s, prefix) {
        Some(s.skip(prefix.len() as int))
    } else {
        None
    }
}

/// What precedes `suffix` in `s`.
pub open spec fn before_suffix(s: Seq<char>, suffix: Seq<char>) -> Option<Seq<char>> {
    if ends_in(s, suffix) {
        Some(s.take(s.len() - suffix.len()))
    } else {
        None
    }
}

/// `s` without any repetition of `prefix` at its start.
pub open spec fn strip_repeated(s: Seq<char>, prefix: Seq<char>) -> Seq<char>
    decreases s.len(),
{
    if prefix.len() > 0 && begins_with(s, prefix) {
        strip_repeated(s.skip(prefix.len() as int), prefix)
    } else {
        s
    }
}

/// What stands before and after the first `sep` of `s`.
pub open spec fn split_once_of(s: Seq<char>, sep: char) -> Option<(Seq<char>, Seq<char>)> {
    match first_index(s, sep) {
        Some(i) => Some((s.take(i), s.skip(i + 1))),
        None => None,
    }
}

/// `s` with every occurrence of `from`, found from left to right, replaced by `to`; an empty
/// `from` occurs before every character and at the end.
pub open spec fn replace_of(s: Seq<char>, from: Seq<char>, to: Seq<char>) -> Seq<char>
    decreases s.len(),
{
    if from.len() == 0 {
        if s.len() == 0 {
            to
        } else {
            to + seq![s[0]] + replace_of(s.skip(1), from, to)
        }
    } else if begins_with(s, from) {
        to + replace_of(s.skip(from.len() as int), from, to)
    } else if s.len() == 0 {
        s
    } else {
        seq![s[0]] + replace_of(s.skip(1), from, to)
    }
}

/// The members of `list` with `sep` between each two.
pub open spec fn join_of(list: Seq<Seq<char>>, sep: Seq<char>) -> Seq<char>
    decreases list.len(),
{
    if list.len() == 0 {
        Seq::empty()
    } else if list.len() == 1 {
        list[0]
    } else {
        join_of(list.drop_last(), sep) + sep + list.last()
    }
}

/// The character of a decimal digit.
pub open spec fn digit_of(d: nat) -> char {
    if d == 0 {
        '0'
    } else if d == 1 {
        '1'
    } else if d == 2 {
        '2'
    } else if d == 3 {
        '3'
    } else if d == 4 {
        '4'
    } else if d == 5 {
        '5'
    } else if d == 6 {
        '6'
    } else if d == 7 {
        '7'
    } else if d == 8 {
        '8'
    } else {
        '9'
    }
}

/// `n` in decimal notation.
pub open spec fn decimal_of(n: nat) -> Seq<char>
    decreases n,
{
    if n < 10 {
        seq![digit_of(n)]
    } else {
        decimal_of(n / 10).push(digit_of(n % 10))
    }
}

/// An upper-case ASCII letter in lower case, any other character unchanged.
pub open spec fn ascii_lower(c: char) -> char {
    if 'A' <= c <= 'Z' {
        ((c as u32) + 32) as char
    } else {
        c
    }
}

/// `s` with its ASCII letters in lower case.
pub open spec fn ascii_lower_of(s: Seq<char>) -> Seq<char> {
    Seq::new(s.len(), |i: int| ascii_lower(s[i]))
}

/// `a` and `b` differ at most in the case of ASCII letters.
pub open spec fn same_ignoring_ascii_case(a: Seq<char>, b: Seq<char>) -> bool {
    ascii_lower_of(a) == ascii_lower_of(b)
}

/// The characters of a string, as a vector.
pub fn chars_of(s: &str) -> (r: Vec<char>)
    ensures
        r@ == s@,
{
    let mut out: Vec<char> = Vec::new();
    for c in it: s.chars()
        invariant
            it.seq() == s@,
            out@ == s@.take(it.index() as int),
    {
        out.push(c);
    }
    out
}

/// The characters from `from` to `to`, as a string.
pub fn text_of(chars: &Vec<char>, from: usize, to: usize) -> (r: String)
    requires
        from <= to <= chars@.len(),
    ensures
        r@ == chars@.subrange(from as int, to as int),
{
    let mut out = String::new();
    for i in from..to
        invariant
            from <= to <= chars@.len(),
            out@ == chars@.subrange(from as int, i as int),
    {
        out.push(chars[i]);
    }
    out
}

/// Whether two strings hold the same characters.
pub fn same_text(a: &str, b: &str) -> (r: bool)
    ensures
        r == (a@ == b@),
{
    a.to_owned() == b.to_owned()
}

/// A copy of a list of strings.
pub fn clone_texts(list: &Vec<String>) -> (r: Vec<String>)
    ensures
        texts(r@) == texts(list@),
{
    let mut out: Vec<String> = Vec::new();
    for i in 0..list.len()
        invariant
            texts(out@) == texts(list@).take(i as int),
    {
        let ghost before = out@;
        out.push(list[i].clone());
        assert(texts(out@) =~= texts(before).push(list@[i as int]@));
    }
    out
}

/// Whether the character is white space.
pub fn is_whitespace(c: char) -> (r: bool)
    ensures
        r == is_space(c),
{
    let n: u32 = c as u32;
    (0x9 <= n && n <= 0xd) || n == 0x20 || n == 0x85 || n == 0xa0 || n == 0x1680 || (0x2000 <= n
        && n <= 0x200a) || n == 0x2028 || n == 0x2029 || n == 0x202f || n == 0x205f || n == 0x3000
}

proof fn lemma_trim_start(s: Seq<char>, i: int)
    requires
        0 <= i <= s.len(),
        forall|j: int| 0 <= j < i ==> is_space(#[trigger] s[j]),
    ensures
        trim_start_of(s) == trim_start_of(s.skip(i)),
        leading_space(s) == s.take(i) + leading_space(s.skip(i)),
    decreases i,
{
    if i == 0 {
        assert(s.skip(0) =~= s);
        assert(s.take(0) + leading_space(s) =~= leading_space(s));
    } else {
        lemma_trim_start(s, i - 1);
        let t = s.skip(i - 1);
        assert(t.skip(1) =~= s.skip(i));
        assert(s.take(i - 1) + (seq![t[0]] + leading_space(s.skip(i))) =~= s.take(i)
            + leading_space(s.skip(i)));
    }
}

proof fn lemma_trim_end(s: Seq<char>, i: int)
    requires
        0 <= i <= s.len(),
        forall|j: int| i <= j < s.len() ==> is_space(#[trigger] s[j]),
    ensures
        trim_end_of(s) == trim_end_of(s.take(i)),
    decreases s.len() - i,
{
    if i == s.len() {
        assert(s.take(i) =~= s);
    } else {
        lemma_trim_end(s, i + 1);
        assert(s.take(i + 1).drop_last() =~= s.take(i));
    }
}

/// Where the white space at the start ends.
fn space_end(chars: &Vec<char>) -> (r: usize)
    ensures
        r <= chars@.len(),
        trim_start_of(chars@) == chars@.skip(r as int),
        leading_space(chars@) == chars@.take(r as int),
{
    let mut i: usize = 0;
    while i < chars.len() && is_whitespace(chars[i])
        invariant
            i <= chars@.len(),
            forall|j: int| 0 <= j < i ==> is_space(#[trigger] chars@[j]),
        decreases chars.len() - i,
    {
        i += 1;
    }
    proof {
        lemma_trim_start(chars@, i as int);
        assert(chars@.take(i as int) + Seq::empty() =~= chars@.take(i as int));
    }
    i
}

/// The text without leading white space (`str::trim_start`).
pub fn trim_start(s: &str) -> (r: String)
    ensures
        r@ == trim_start_of(s@),
{
    let chars = chars_of(s);
    let from = space_end(&chars);
    let r = text_of(&chars, from, chars.len());
    assert(r@ =~= chars@.skip(from as int));
    r
}

/// The white space at the start of the text.
pub fn indent_of(s: &str) -> (r: String)
    ensures
        r@ == leading_space(s@),
{
    let chars = chars_of(s);
    let to = space_end(&chars);
    let r = text_of(&chars, 0, to);
    assert(r@ =~= chars@.take(to as int));
    r
}

/// The text without leading and trailing white space (`str::trim`).
pub fn trim(s: &str) -> (r: String)
    ensures
        r@ == trim_of(s@),
{
    let chars = chars_of(s);
    let from = space_end(&chars);
    let ghost rest = chars@.skip(from as int);
    let mut to: usize = chars.len();
    while to > from && is_whitespace(chars[to - 1])
        invariant
            from <= to <= chars@.len(),
            rest == chars@.skip(from as int),
            forall|j: int| to - from <= j < rest.len() ==> is_space(#[trigger] rest[j]),
        decreases to,
    {
        to -= 1;
    }
    proof {
        lemma_trim_end(rest, to - from);
        assert(rest.take(to - from) =~= chars@.subrange(from as int, to as int));
        if to > from {
            assert(rest.take(to - from).last() == chars@[to - 1]);
        }
    }
    text_of(&chars, from, to)
}

proof fn lemma_strip_leading(s: Seq<char>, c: char, i: int)
    requires
        0 <= i <= s.len(),
        forall|j: int| 0 <= j < i ==> (#[trigger] s[j]) == c,
    ensures
        strip_leading(s, c) == strip_leading(s.skip(i), c),
    decreases i,
{
    if i == 0 {
        assert(s.skip(0) =~= s);
    } else {
        lemma_strip_leading(s, c, i - 1);
        assert(s.skip(i - 1).skip(1) =~= s.skip(i));
    }
}

proof fn lemma_strip_trailing(s: Seq<char>, c: char, i: int)
    requires
        0 <= i <= s.len(),
        forall|j: int| i <= j < s.len() ==> (#[trigger] s[j]) == c,
    ensures
        strip_trailing(s, c) == strip_trailing(s.take(i), c),
    decreases s.len() - i,
{
    if i == s.len() {
        assert(s.take(i) =~= s);
    } else {
        lemma_strip_trailing(s, c, i + 1);
        assert(s.take(i + 1).drop_last() =~= s.take(i));
    }
}

/// The text without the character at its start, however often (`str::trim_start_matches`).
pub fn trim_leading(s: &str, c: char) -> (r: String)
    ensures
        r@ == strip_leading(s@, c),
{
    let chars = chars_of(s);
    let mut from: usize = 0;
    while from < chars.len() && chars[from] == c
        invariant
            from <= chars@.len(),
            forall|j: int| 0 <= j < from ==> (#[trigger] chars@[j]) == c,
        decreases chars.len() - from,
    {
        from += 1;
    }
    proof {
        lemma_strip_leading(chars@, c, from as int);
    }
    let r = text_of(&chars, from, chars.len());
    assert(r@ =~= chars@.skip(from as int));
    r
}

/// The text without the character at either end, however often (`str::trim_matches`).
pub fn trim_char(s: &str, c: char) -> (r: String)
    ensures
        r@ == strip_trailing(strip_leading(s@, c), c),
{
    let chars = chars_of(s);
    let mut from: usize = 0;
    while from < chars.len() && chars[from] == c
        invariant
            from <= chars@.len(),
            forall|j: int| 0 <= j < from ==> (#[trigger] chars@[j]) == c,
        decreases chars.len() - from,
    {
        from += 1;
    }
    let ghost rest = chars@.skip(from as int);
    let mut to: usize = chars.len();
    while to > from && chars[to - 1] == c
        invariant
            from <= to <= chars@.len(),
            rest == chars@.skip(from as int),
            forall|j: int| to - from <= j < rest.len() ==> (#[trigger] rest[j]) == c,
        decreases to,
    {
        to -= 1;
    }
    proof {
        lemma_strip_leading(chars@, c, from as int);
        lemma_strip_trailing(rest, c, to - from);
        assert(rest.take(to - from) =~= chars@.subrange(from as int, to as int));
        if to > from {
            assert(rest.take(to - from).last() == chars@[to - 1]);
        }
    }
    text_of(&chars, from, to)
}

proof fn lemma_first_index_skip(s: Seq<char>, c: char, i: int)
    requires
        0 <= i <= s.len(),
        forall|j: int| 0 <= j < i ==> (#[trigger] s[j]) != c,
    ensures
        first_index(s, c) == (match first_index(s.skip(i), c) {
            Some(k) => Some(k + i),
            None => None,
        }),
    decreases i,
{
    if i == 0 {
        assert(s.skip(0) =~= s);
    } else {
        lemma_first_index_skip(s, c, i - 1);
        assert(s.skip(i - 1).skip(1) =~= s.skip(i));
    }
}

/// The first position of a character is inside the text, holds it, and none before it does.
pub proof fn lemma_first_index(s: Seq<char>, c: char)
    ensures
        match first_index(s, c) {
            Some(i) => 0 <= i < s.len() && s[i] == c && (forall|j: int| 0 <= j < i ==> s[j] != c),
            None => forall|j: int| 0 <= j < s.len() ==> s[j] != c,
        },
    decreases s.len(),
{
    if s.len() > 0 && s[0] != c {
        lemma_first_index(s.skip(1), c);
        let rest = s.skip(1);
        assert forall|j: int| 1 <= j < s.len() implies s[j] == rest[j - 1] by {}
    }
}

/// The last position of a character is inside the text and holds it.
pub proof fn lemma_last_index(s: Seq<char>, c: char)
    ensures
        match last_index(s, c) {
            Some(i) => 0 <= i < s.len() && s[i] == c && (forall|j: int|
                i < j < s.len() ==> s[j] != c),
            None => forall|j: int| 0 <= j < s.len() ==> s[j] != c,
        },
    decreases s.len(),
{
    if s.len() > 0 && s.last() != c {
        lemma_last_index(s.drop_last(), c);
        let rest = s.drop_last();
        assert forall|j: int| 0 <= j < s.len() - 1 implies s[j] == rest[j] by {}
    }
}

/// The first position of the character at or after `from`.
pub fn find_char(chars: &Vec<char>, c: char, from: usize) -> (r: Option<usize>)
    requires
        from <= chars@.len(),
    ensures
        match r {
            Some(i) => from <= i < chars.len() && first_index(chars@.skip(from as int), c) == Some(
                i - from,
            ) && chars@[i as int] == c,
            None => first_index(chars@.skip(from as int), c) is None,
        },
{
    let ghost rest = chars@.skip(from as int);
    let mut i: usize = from;
    while i < chars.len()
        invariant
            from <= i <= chars@.len(),
            rest == chars@.skip(from as int),
            forall|j: int| 0 <= j < i - from ==> (#[trigger] rest[j]) != c,
        decreases chars.len() - i,
    {
        if chars[i] == c {
            proof {
                lemma_first_index_skip(rest, c, i - from);
                assert(rest.skip(i - from)[0] == chars@[i as int]);
            }
            return Some(i);
        }
        assert(rest[i - from] == chars@[i as int]);
        i += 1;
    }
    proof {
        lemma_first_index_skip(rest, c, i - from);
    }
    None
}

proof fn lemma_last_index_take(s: Seq<char>, c: char, i: int)
    requires
        0 <= i <= s.len(),
        forall|j: int| i <= j < s.len() ==> (#[trigger] s[j]) != c,
    ensures
        last_index(s, c) == last_index(s.take(i), c),
    decreases s.len() - i,
{
    if i == s.len() {
        assert(s.take(i) =~= s);
    } else {
        lemma_last_index_take(s, c, i + 1);
        assert(s.take(i + 1).drop_last() =~= s.take(i));
    }
}

/// The last position of the character.
pub fn rfind_char(chars: &Vec<char>, c: char) -> (r: Option<usize>)
    ensures
        match r {
            Some(i) => i < chars@.len() && last_index(chars@, c) == Some(i as int)
                && chars@[i as int] == c,
            None => last_index(chars@, c) is None,
        },
{
    let mut i: usize = chars.len();
    while i > 0
        invariant
            i <= chars@.len(),
            forall|j: int| i <= j < chars@.len() ==> (#[trigger] chars@[j]) != c,
        decreases i,
    {
        if chars[i - 1] == c {
            proof {
                lemma_last_index_take(chars@, c, i as int);
            }
            return Some(i - 1);
        }
        i -= 1;
    }
    proof {
        lemma_last_index_take(chars@, c, 0);
    }
    None
}

/// What follows the last occurrence of the character; the text itself where there is none.
pub fn after_last(s: &str, c: char) -> (r: String)
    ensures
        r@ == after_last_of(s@, c),
{
    let chars = chars_of(s);
    let count = chars.len();
    match rfind_char(&chars, c) {
        Some(i) => text_of(&chars, i + 1, count),
        None => s.to_owned(),
    }
}

/// The pieces of the text between the occurrences of `sep` (`str::split`).
pub fn split(s: &str, sep: char) -> (r: Vec<String>)
    ensures
        texts(r@) == split_of(s@, sep),
{
    let chars = chars_of(s);
    let mut out: Vec<String> = Vec::new();
    let mut from: usize = 0;
    assert(chars@.skip(0) =~= chars@);
    loop
        invariant
            chars@ == s@,
            from <= chars@.len(),
            texts(out@) + split_of(chars@.skip(from as int), sep) == split_of(s@, sep),
        decreases chars.len() - from,
    {
        let ghost rest = chars@.skip(from as int);
        let ghost before = out@;
        match find_char(&chars, sep, from) {
            Some(i) => {
                out.push(text_of(&chars, from, i));
                proof {
                    assert(chars@.subrange(from as int, i as int) =~= rest.take(i - from));
                    assert(rest.skip(i - from + 1) =~= chars@.skip(i + 1));
                    assert(texts(out@) =~= texts(before).push(rest.take(i - from)));
                    assert(texts(before) + (seq![rest.take(i - from)] + split_of(
                        chars@.skip(i + 1),
                        sep,
                    )) =~= texts(out@) + split_of(chars@.skip(i + 1), sep));
                }
                from = i + 1;
            },
            None => {
                out.push(text_of(&chars, from, chars.len()));
                proof {
                    assert(chars@.subrange(from as int, chars@.len() as int) =~= rest);
                    assert(texts(out@) =~= texts(before) + seq![rest]);
                }
                return out;
            },
        }
    }
}

/// The lines of the text (`str::lines`).
pub fn lines(s: &str) -> (r: Vec<String>)
    ensures
        texts(r@) == lines_of(s@),
{
    let chars = chars_of(s);
    let mut out: Vec<String> = Vec::new();
    let mut from: usize = 0;
    assert(chars@.skip(0) =~= chars@);
    while from < chars.len()
        invariant
            chars@ == s@,
            from <= chars@.len(),
            texts(out@) + lines_of(chars@.skip(from as int)) == lines_of(s@),
        decreases chars.len() - from,
    {
        let ghost rest = chars@.skip(from as int);
        let ghost before = out@;
        match find_char(&chars, '\n', from) {
            Some(i) => {
                let to: usize = if i > from && chars[i - 1] == '\r' {
                    i - 1
                } else {
                    i
                };
                out.push(text_of(&chars, from, to));
                proof {
                    let piece = rest.take(i - from);
                    if i > from {
                        assert(piece.last() == chars@[i - 1]);
                    }
                    assert(chars@.subrange(from as int, to as int) =~= line_body(piece));
                    assert(rest.skip(i - from + 1) =~= chars@.skip(i + 1));
                    assert(texts(out@) =~= texts(before).push(line_body(piece)));
                    assert(texts(before) + (seq![line_body(piece)] + lines_of(chars@.skip(i + 1)))
                        =~= texts(out@) + lines_of(chars@.skip(i + 1)));
                }
                from = i + 1;
            },
            None => {
                out.push(text_of(&chars, from, chars.len()));
                proof {
                    assert(chars@.subrange(from as int, chars@.len() as int) =~= rest);
                    assert(texts(out@) =~= texts(before) + seq![rest]);
                }
                return out;
            },
        }
    }
    proof {
        assert(texts(out@) + Seq::<Seq<char>>::empty() =~= texts(out@));
    }
    out
}

/// Whether `sub` stands in the text at position `i`.
fn occurs(chars: &Vec<char>, sub: &Vec<char>, i: usize) -> (r: bool)
    requires
        i <= chars@.len(),
    ensures
        r == occurs_at(chars@, sub@, i as int),
{
    if sub.len() > chars.len() - i {
        return false;
    }
    for j in 0..sub.len()
        invariant
            i + sub.len() <= chars.len(),
            forall|k: int| 0 <= k < j ==> chars@[i + k] == #[trigger] sub@[k],
    {
        if chars[i + j] != sub[j] {
            assert(chars@.subrange(i as int, i + sub@.len())[j as int] != sub@[j as int]);
            return false;
        }
    }
    assert(chars@.subrange(i as int, i + sub@.len()) =~= sub@);
    true
}

/// Whether the text contains `sub` (`str::contains`).
pub fn contains(s: &str, sub: &str) -> (r: bool)
    ensures
        r == contains_text(s@, sub@),
{
    let chars = chars_of(s);
    let part = chars_of(sub);
    for i in 0..chars.len()
        invariant
            chars@ == s@,
            part@ == sub@,
            forall|j: int| 0 <= j < i ==> !occurs_at(s@, sub@, j),
    {
        if occurs(&chars, &part, i) {
            return true;
        }
    }
    occurs(&chars, &part, chars.len())
}

/// Whether the text begins with `prefix` (`str::starts_with`).
pub fn starts_with(s: &str, prefix: &str) -> (r: bool)
    ensures
        r == begins_with(s@, prefix@),
{
    let chars = chars_of(s);
    let part = chars_of(prefix);
    let r = occurs(&chars, &part, 0);
    assert(part@.len() <= chars@.len() ==> chars@.subrange(0, part@.len() as int) =~= chars@.take(
        part@.len() as int,
    ));
    r
}

/// Whether the text ends with `suffix` (`str::ends_with`).
pub fn ends_with(s: &str, suffix: &str) -> (r: bool)
    ensures
        r == ends_in(s@, suffix@),
{
    let chars = chars_of(s);
    let part = chars_of(suffix);
    if part.len() > chars.len() {
        return false;
    }
    let r = occurs(&chars, &part, chars.len() - part.len());
    assert(chars@.subrange(chars@.len() - part@.len(), chars@.len() as int) =~= chars@.skip(
        chars@.len() - part@.len(),
    ));
    r
}

/// What follows `prefix` in the text (`str::strip_prefix`).
pub fn strip_prefix(s: &str, prefix: &str) -> (r: Option<String>)
    ensures
        opt_text(r) == after_prefix(s@, prefix@),
{
    if !starts_with(s, prefix) {
        return None;
    }
    let chars = chars_of(s);
    let part = chars_of(prefix);
    let r = text_of(&chars, part.len(), chars.len());
    assert(r@ =~= s@.skip(prefix@.len() as int));
    Some(r)
}

/// What precedes `suffix` in the text (`str::strip_suffix`).
pub fn strip_suffix(s: &str, suffix: &str) -> (r: Option<String>)
    ensures
        opt_text(r) == before_suffix(s@, suffix@),
{
    if !ends_with(s, suffix) {
        return None;
    }
    let chars = chars_of(s);
    let part = chars_of(suffix);
    let r = text_of(&chars, 0, chars.len() - part.len());
    assert(r@ =~= s@.take(s@.len() - suffix@.len()));
    Some(r)
}

/// The text without any repetition of a nonempty `prefix` (`str::trim_start_matches`).
pub fn trim_prefixes(s: &str, prefix: &str) -> (r: String)
    ensures
        r@ == strip_repeated(s@, prefix@),
{
    let part = chars_of(prefix);
    let mut rest = s.to_owned();
    if part.len() == 0 {
        return rest;
    }
    loop
        invariant
            part@ == prefix@,
            part@.len() > 0,
            strip_repeated(rest@, prefix@) == strip_repeated(s@, prefix@),
        decreases rest@.len(),
    {
        match strip_prefix(rest.as_str(), prefix) {
            Some(next) => {
                rest = next;
            },
            None => {
                return rest;
            },
        }
    }
}

/// What stands before and after the first `sep` (`str::split_once`).
pub fn split_once(s: &str, sep: char) -> (r: Option<(String, String)>)
    ensures
        match r {
            Some((a, b)) => split_once_of(s@, sep) == Some((a@, b@)),
            None => split_once_of(s@, sep) is None,
        },
{
    let chars = chars_of(s);
    assert(chars@.skip(0) =~= chars@);
    match find_char(&chars, sep, 0) {
        Some(i) => {
            let a = text_of(&chars, 0, i);
            let b = text_of(&chars, i + 1, chars.len());
            assert(a@ =~= s@.take(i as int));
            assert(b@ =~= s@.skip(i + 1));
            Some((a, b))
        },
        None => None,
    }
}

/// The text with every occurrence of `from` replaced by `to` (`str::replace`).
pub fn replace(s: &str, from: &str, to: &str) -> (r: String)
    ensures
        r@ == replace_of(s@, from@, to@),
{
    let chars = chars_of(s);
    let part = chars_of(from);
    let mut out = String::new();
    let mut i: usize = 0;
    assert(chars@.skip(0) =~= chars@);
    assert(out@ + replace_of(s@, from@, to@) =~= replace_of(s@, from@, to@));
    while i < chars.len()
        invariant
            chars@ == s@,
            part@ == from@,
            i <= chars@.len(),
            out@ + replace_of(chars@.skip(i as int), from@, to@) == replace_of(s@, from@, to@),
        decreases chars.len() - i,
    {
        let ghost rest = chars@.skip(i as int);
        let ghost before = out@;
        let hit = occurs(&chars, &part, i);
        proof {
            assert(i + part@.len() <= chars@.len() ==> chars@.subrange(i as int, i + part@.len())
                =~= rest.take(part@.len() as int));
            assert(hit == begins_with(rest, from@));
            assert(rest.skip(1) =~= chars@.skip(i + 1));
        }
        if part.len() > 0 && hit {
            out.append(to);
            proof {
                assert(rest.skip(part@.len() as int) =~= chars@.skip(i + part@.len()));
                assert(before + (to@ + replace_of(chars@.skip(i + part@.len()), from@, to@)) =~= out@
                    + replace_of(chars@.skip(i + part@.len()), from@, to@));
            }
            i += part.len();
        } else if part.len() == 0 {
            out.append(to);
            out.push(chars[i]);
            proof {
                assert(before + (to@ + seq![rest[0]] + replace_of(chars@.skip(i + 1), from@, to@))
                    =~= out@ + replace_of(chars@.skip(i + 1), from@, to@));
            }
            i += 1;
        } else {
            out.push(chars[i]);
            proof {
                assert(before + (seq![rest[0]] + replace_of(chars@.skip(i + 1), from@, to@)) =~= out@
                    + replace_of(chars@.skip(i + 1), from@, to@));
            }
            i += 1;
        }
    }
    proof {
        assert(chars@.skip(i as int) =~= Seq::<char>::empty());
        assert(out@ + Seq::<char>::empty() =~= out@);
    }
    if part.len() == 0 {
        out.append(to);
    }
    out
}

/// The members of the list with `sep` between each two (`[String]::join`).
pub fn join(list: &Vec<String>, sep: &str) -> (r: String)
    ensures
        r@ == join_of(texts(list@), sep@),
{
    let mut out = String::new();
    for i in 0..list.len()
        invariant
            out@ == join_of(texts(list@).take(i as int), sep@),
    {
        let ghost all = texts(list@).take(i + 1);
        assert(all.drop_last() =~= texts(list@).take(i as int));
        let ghost before = out@;
        if i > 0 {
            out.append(sep);
        }
        out.append(list[i].as_str());
        assert(i == 0 ==> out@ =~= all[0]);
    }
    assert(texts(list@).take(list@.len() as int) =~= texts(list@));
    out
}

/// A number below ten as a digit.
fn digit(d: usize) -> (r: char)
    requires
        d < 10,
    ensures
        r == digit_of(d as nat),
{
    match d {
        0 => '0',
        1 => '1',
        2 => '2',
        3 => '3',
        4 => '4',
        5 => '5',
        6 => '6',
        7 => '7',
        8 => '8',
        _ => '9',
    }
}

/// The number in decimal notation (`usize::to_string`).
pub fn decimal(n: usize) -> (r: String)
    ensures
        r@ == decimal_of(n as nat),
    decreases n,
{
    if n < 10 {
        let mut out = String::new();
        out.push(digit(n));
        assert(out@ =~= seq![digit_of(n as nat)]);
        out
    } else {
        let mut out = decimal(n / 10);
        out.push(digit(n % 10));
        out
    }
}

/// The text with its ASCII letters in lower case (`str::to_ascii_lowercase`).
pub fn to_ascii_lowercase(s: &str) -> (r: String)
    ensures
        r@ == ascii_lower_of(s@),
{
    let chars = chars_of(s);
    let mut out = String::new();
    for i in 0..chars.len()
        invariant
            chars@ == s@,
            out@ == ascii_lower_of(s@).take(i as int),
    {
        let c = chars[i];
        if 'A' <= c && c <= 'Z' {
            let low: u8 = c as u8;
            out.push((low + 32) as char);
        } else {
            out.push(c);
        }
        assert(out@ =~= ascii_lower_of(s@).take(i + 1));
    }
    out
}

/// Whether the texts differ at most in the case of ASCII letters
/// (`str::eq_ignore_ascii_case`).
pub fn eq_ignore_ascii_case(a: &str, b: &str) -> (r: bool)
    ensures
        r == same_ignoring_ascii_case(a@, b@),
{
    to_ascii_lowercase(a) == to_ascii_lowercase(b)
}

/// `a` comes before `b` in the order of their characters.
pub open spec fn text_less(a: Seq<char>, b: Seq<char>) -> bool
    decreases a.len(),
{
    if b.len() == 0 {
        false
    } else if a.len() == 0 {
        true
    } else if a[0] == b[0] {
        text_less(a.skip(1), b.skip(1))
    } else {
        a[0] < b[0]
    }
}

/// Nothing comes before itself; of two different texts one comes before the other, and not
/// the other before it.
pub proof fn lemma_text_less_total(a: Seq<char>, b: Seq<char>)
    ensures
        a == b ==> !text_less(a, b),
        a != b ==> text_less(a, b) != text_less(b, a),
    decreases a.len(),
{
    if a.len() > 0 && b.len() > 0 && a[0] == b[0] {
        lemma_text_less_total(a.skip(1), b.skip(1));
        if a.skip(1) == b.skip(1) {
            assert(a =~= seq![a[0]] + a.skip(1));
            assert(b =~= seq![b[0]] + b.skip(1));
        }
    } else if a.len() == 0 && b.len() == 0 {
        assert(a =~= b);
    }
}

/// What comes before a text comes before all that follow it.
pub proof fn lemma_text_less_trans(a: Seq<char>, b: Seq<char>, c: Seq<char>)
    requires
        text_less(a, b),
        text_less(b, c),
    ensures
        text_less(a, c),
    decreases a.len(),
{
    if a.len() > 0 && a[0] == b[0] && b[0] == c[0] {
        lemma_text_less_trans(a.skip(1), b.skip(1), c.skip(1));
    }
}

/// Whether `a` comes before `b`.
pub fn comes_before(a: &str, b: &str) -> (r: bool)
    ensures
        r == text_less(a@, b@),
{
    let x = chars_of(a);
    let y = chars_of(b);
    let mut i: usize = 0;
    assert(x@.skip(0) =~= x@ && y@.skip(0) =~= y@);
    while i < x.len() && i < y.len()
        invariant
            x@ == a@,
            y@ == b@,
            i <= x@.len(),
            i <= y@.len(),
            text_less(a@, b@) == text_less(x@.skip(i as int), y@.skip(i as int)),
        decreases x.len() - i,
    {
        if x[i] != y[i] {
            return x[i] < y[i];
        }
        assert(x@.skip(i as int).skip(1) =~= x@.skip(i + 1));
        assert(y@.skip(i as int).skip(1) =~= y@.skip(i + 1));
        i += 1;
    }
    i < y.len()
}

/// What `str::to_lowercase` makes of a text.
pub uninterp spec fn lowercase_of(s: Seq<char>) -> Seq<char>;

/// What `str::to_uppercase` makes of a text.
pub uninterp spec fn uppercase_of(s: Seq<char>) -> Seq<char>;

/// `str::to_lowercase`.
#[verifier::external_body]
pub(crate) fn to_lowercase(s: &str) -> (r: String)
    ensures
        r@ == lowercase_of(s@),
{
    s.to_lowercase()
}

/// `str::to_uppercase`.
#[verifier::external_body]
pub(crate) fn to_uppercase(s: &str) -> (r: String)
    ensures
        r@ == uppercase_of(s@),
{
    s.to_uppercase()
}

/// Appends a text to a list.
pub fn push_text(list: &mut Vec<String>, s: String)
    ensures
        texts(final(list)@) == texts(old(list)@).push(s@),
{
    list.push(s);
    assert(texts(list@) =~= texts(old(list)@).push(s@));
}

/// Whether the list holds the text, over its content.
pub fn texts_contain(list: &Vec<String>, s: &str) -> (r: bool)
    ensures
        r == texts(list@).contains(s@),
{
    let ghost all = texts(list@);
    for i in 0..list.len()
        invariant
            all == texts(list@),
            forall|j: int| 0 <= j < i ==> #[trigger] all[j] != s@,
    {
        assert(all[i as int] == list@[i as int]@);
        if same_text(list[i].as_str(), s) {
            return true;
        }
    }
    false
}

/// Whether the text has no characters.
pub fn is_empty(s: &str) -> (r: bool)
    ensures
        r == (s@.len() == 0),
{
    s.is_empty()
}

/// Appends copies of the texts.
pub fn append_texts(out: &mut Vec<String>, more: &Vec<String>)
    ensures
        texts(final(out)@) == texts(old(out)@) + texts(more@),
{
    let ghost start = texts(out@);
    let ghost all = texts(more@);
    assert(start =~= start + all.take(0));
    for i in 0..more.len()
        invariant
            all == texts(more@),
            texts(out@) == start + all.take(i as int),
    {
        push_text(out, more[i].clone());
        assert(start + all.take(i + 1) =~= (start + all.take(i as int)).push(all[i as int]));
    }
    assert(all.take(all.len() as int) =~= all);
}

/// A text without as many bytes at its end; `None` where there are fewer, or where that would take
/// a part of a character.
pub open spec fn without_bytes(s: Seq<char>, n: nat) -> Option<Seq<char>> {
    let bytes = vstd::utf8::encode_utf8(s);
    let end = bytes.len() - n;
    if 0 <= end && vstd::utf8::is_char_boundary(bytes, end) {
        Some(vstd::utf8::decode_utf8(bytes.subrange(0, end)))
    } else {
        None
    }
}

/// The text without as many bytes at its end; `None` where there are fewer, or where that would
/// take a part of a character.
pub fn cut_bytes(s: &str, n: usize) -> (r: Option<String>)
    ensures
        match r {
            Some(rest) => without_bytes(s@, n as nat) == Some(rest@),
            None => without_bytes(s@, n as nat) is None,
        },
{
    let len = s.as_bytes().len();
    if n > len || !s.is_char_boundary(len - n) {
        return None;
    }
    let (rest, _) = s.split_at(len - n);
    proof {
        vstd::utf8::encode_utf8_decode_utf8(rest@);
    }
    Some(rest.to_owned())
}

/// How often `sub` stands in `s` at one of the first `n` places.
pub open spec fn count_before(s: Seq<char>, sub: Seq<char>, n: int) -> nat
    decreases n,
{
    if n <= 0 {
        0
    } else if occurs_at(s, sub, n - 1) {
        count_before(s, sub, n - 1) + 1
    } else {
        count_before(s, sub, n - 1)
    }
}

/// At how many places `sub` stands in `s`.
pub open spec fn count_of(s: Seq<char>, sub: Seq<char>) -> nat {
    count_before(s, sub, s.len() as int)
}

/// At how many places `sub` stands in the text.
pub fn count(s: &str, sub: &str) -> (r: usize)
    ensures
        r == count_of(s@, sub@),
{
    let chars = chars_of(s);
    let part = chars_of(sub);
    let total = chars.len();
    let mut found: usize = 0;
    for i in 0..total
        invariant
            total == chars@.len(),
            chars@ == s@,
            part@ == sub@,
            found == count_before(s@, sub@, i as int),
            found <= i,
    {
        let mut fits = part.len() <= total - i;
        let mut j: usize = 0;
        while fits && j < part.len()
            invariant
                chars@ == s@,
                part@ == sub@,
                i < total,
                total == chars@.len(),
                j <= part@.len(),
                fits ==> part@.len() <= chars@.len() - i,
                fits ==> forall|k: int| 0 <= k < j ==> s@[i + k] == #[trigger] sub@[k],
                !fits ==> !occurs_at(s@, sub@, i as int),
            decreases part@.len() - j + (if fits {
                1int
            } else {
                0
            }),
        {
            if chars[i + j] != part[j] {
                fits = false;
                assert(occurs_at(s@, sub@, i as int) ==> s@.subrange(
                    i as int,
                    i + sub@.len(),
                )[j as int] == s@[i + j]);
            } else {
                j += 1;
            }
        }
        if fits {
            assert(s@.subrange(i as int, i + sub@.len()) =~= sub@);
            found += 1;
        }
    }
    found
}

} // verus!
