//! Text as a sequence of characters: trimming, splitting, joining, comparing
//! and writing numbers, each with the sequence it yields as its contract.

use vstd::prelude::*;

verus! {

/// A class of characters at which text is trimmed or split.
pub enum CharClass {
    /// The characters with Unicode's `White_Space` property.
    Whitespace,
    /// One character alone.
    Only(char),
}

/// The characters with Unicode's `White_Space` property.
pub open spec fn is_whitespace(c: char) -> bool {
    ||| '\u{9}' <= c <= '\u{d}'
    ||| c == ' '
    ||| c == '\u{85}'
    ||| c == '\u{a0}'
    ||| c == '\u{1680}'
    ||| '\u{2000}' <= c <= '\u{200a}'
    ||| c == '\u{2028}'
    ||| c == '\u{2029}'
    ||| c == '\u{202f}'
    ||| c == '\u{205f}'
    ||| c == '\u{3000}'
}

impl CharClass {
    /// Whether `c` belongs to the class.
    pub open spec fn has(self, c: char) -> bool {
        match self {
            CharClass::Whitespace => is_whitespace(c),
            CharClass::Only(only) => c == only,
        }
    }

    /// Whether `c` belongs to the class.
    pub fn contains(&self, c: char) -> (r: bool)
        ensures
            r == self.has(c),
    {
        match self {
            CharClass::Whitespace => {
                ('\u{9}' <= c && c <= '\u{d}') || c == ' ' || c == '\u{85}' || c == '\u{a0}' || c
                    == '\u{1680}' || ('\u{2000}' <= c && c <= '\u{200a}') || c == '\u{2028}' || c
                    == '\u{2029}' || c == '\u{202f}' || c == '\u{205f}' || c == '\u{3000}'
            },
            CharClass::Only(only) => c == *only,
        }
    }
}

/// `s` without its longest prefix of characters of `class`.
pub open spec fn trim_start(s: Seq<char>, class: CharClass) -> Seq<char>
    decreases s.len(),
{
    if s.len() > 0 && class.has(s.first()) {
        trim_start(s.drop_first(), class)
    } else {
        s
    }
}

/// `s` without its longest suffix of characters of `class`.
pub open spec fn trim_end(s: Seq<char>, class: CharClass) -> Seq<char>
    decreases s.len(),
{
    if s.len() > 0 && class.has(s.last()) {
        trim_end(s.drop_last(), class)
    } else {
        s
    }
}

/// `s` without whitespace at either end.
pub open spec fn trim(s: Seq<char>) -> Seq<char> {
    trim_end(trim_start(s, CharClass::Whitespace), CharClass::Whitespace)
}

/// The pieces of `s` between the characters of `class`, in order: one more
/// piece than there are such characters, the empty ones kept.
pub open spec fn split(s: Seq<char>, class: CharClass) -> Seq<Seq<char>>
    decreases s.len(),
{
    if s.len() == 0 {
        seq![Seq::<char>::empty()]
    } else {
        let front = split(s.drop_last(), class);
        if class.has(s.last()) {
            front.push(Seq::<char>::empty())
        } else {
            front.drop_last().push(front.last().push(s.last()))
        }
    }
}

/// The test that a piece of text holds at least one character.
pub open spec fn nonempty() -> spec_fn(Seq<char>) -> bool {
    |piece: Seq<char>| piece.len() > 0
}

/// The words of `s`: what stands between whitespace.
pub open spec fn words(s: Seq<char>) -> Seq<Seq<char>> {
    split(s, CharClass::Whitespace).filter(nonempty())
}

/// The parts one after the other, with `sep` between each two of them.
pub open spec fn join(parts: Seq<Seq<char>>, sep: Seq<char>) -> Seq<char>
    decreases parts.len(),
{
    if parts.len() == 0 {
        Seq::empty()
    } else {
        let gap = if parts.len() == 1 {
            Seq::empty()
        } else {
            sep
        };
        join(parts.drop_last(), sep) + gap + parts.last()
    }
}

/// `s` without `prefix` where it starts with it, else `s` itself.
pub open spec fn strip_prefix(s: Seq<char>, prefix: Seq<char>) -> Seq<char> {
    if prefix.is_prefix_of(s) {
        s.skip(prefix.len() as int)
    } else {
        s
    }
}

/// The lower-case form of an ASCII capital; any other character as it is.
pub open spec fn ascii_lower(c: char) -> char {
    if 'A' <= c <= 'Z' {
        (c as u8 + 32) as char
    } else {
        c
    }
}

/// Whether two texts are equal but for the case of ASCII letters.
pub open spec fn same_ignoring_ascii_case(a: Seq<char>, b: Seq<char>) -> bool {
    &&& a.len() == b.len()
    &&& forall|i: int| 0 <= i < a.len() ==> ascii_lower(#[trigger] a[i]) == ascii_lower(b[i])
}

/// The character of a decimal digit.
pub open spec fn digit(d: nat) -> char {
    ('0' as u8 + d) as char
}

/// `n` in decimal, without leading zeros.
pub open spec fn decimal(n: nat) -> Seq<char>
    decreases n,
{
    if n < 10 {
        seq![digit(n)]
    } else {
        decimal(n / 10).push(digit(n % 10))
    }
}

/// `n` in decimal, with a minus sign in front where it is negative.
pub open spec fn signed_decimal(n: int) -> Seq<char> {
    if n < 0 {
        "-"@ + decimal((-n) as nat)
    } else {
        decimal(n as nat)
    }
}

/// The characters of `s` as a vector.
fn chars_of(s: &str) -> (v: Vec<char>)
    ensures
        v@ == s@,
{
    let mut v: Vec<char> = Vec::new();
    for c in it: s.chars()
        invariant
            it.seq() == s@,
            v@ == s@.take(it.index() as int),
    {
        v.push(c);
    }
    v
}

/// `s` without its longest prefix of characters of `class`.
pub fn trimmed_start<'a>(s: &'a str, class: &CharClass) -> (r: &'a str)
    ensures
        r@ == trim_start(s@, *class),
{
    let chars = chars_of(s);
    let mut from: usize = 0;
    assert(s@.skip(0) =~= s@);
    while from < chars.len() && class.contains(chars[from])
        invariant
            chars@ == s@,
            from <= chars.len(),
            trim_start(s@, *class) == trim_start(s@.skip(from as int), *class),
        decreases chars.len() - from,
    {
        assert(s@.skip(from as int).drop_first() =~= s@.skip(from as int + 1));
        from = from + 1;
    }
    assert(s@.skip(from as int) =~= s@.subrange(from as int, s@.len() as int));
    s.substring_char(from, chars.len())
}

/// `s` without its longest suffix of characters of `class`.
pub fn trimmed_end<'a>(s: &'a str, class: &CharClass) -> (r: &'a str)
    ensures
        r@ == trim_end(s@, *class),
{
    let chars = chars_of(s);
    let mut to: usize = chars.len();
    assert(s@.take(to as int) =~= s@);
    while to > 0 && class.contains(chars[to - 1])
        invariant
            chars@ == s@,
            to <= chars.len(),
            trim_end(s@, *class) == trim_end(s@.take(to as int), *class),
        decreases to,
    {
        assert(s@.take(to as int).drop_last() =~= s@.take(to as int - 1));
        to = to - 1;
    }
    assert(s@.take(to as int) =~= s@.subrange(0, to as int));
    s.substring_char(0, to)
}

/// `s` without whitespace at either end.
pub fn trimmed<'a>(s: &'a str) -> (r: &'a str)
    ensures
        r@ == trim(s@),
{
    trimmed_end(trimmed_start(s, &CharClass::Whitespace), &CharClass::Whitespace)
}

/// The pieces of `s` between the characters of `class`, the empty ones kept.
pub fn split_at_class(s: &str, class: &CharClass) -> (r: Vec<String>)
    ensures
        r.deep_view() == split(s@, *class),
{
    let chars = chars_of(s);
    let mut pieces: Vec<String> = Vec::new();
    let mut start: usize = 0;
    let mut i: usize = 0;
    assert(s@.take(0) =~= Seq::<char>::empty());
    assert(s@.subrange(0, 0) =~= Seq::<char>::empty());
    assert(pieces.deep_view().push(Seq::<char>::empty()) =~= seq![Seq::<char>::empty()]);
    while i < chars.len()
        invariant
            chars@ == s@,
            start <= i <= chars.len(),
            split(s@.take(i as int), *class) == pieces.deep_view().push(
                s@.subrange(start as int, i as int),
            ),
        decreases chars.len() - i,
    {
        let ghost before = pieces.deep_view();
        let ghost prefix = s@.take(i as int + 1);
        assert(prefix.drop_last() =~= s@.take(i as int));
        assert(prefix.last() == s@[i as int]);
        if class.contains(chars[i]) {
            pieces.push(s.substring_char(start, i).to_owned());
            assert(pieces.deep_view() =~= before.push(s@.subrange(start as int, i as int)));
            start = i + 1;
            assert(s@.subrange(start as int, i as int + 1) =~= Seq::<char>::empty());
        } else {
            assert(before.push(s@.subrange(start as int, i as int)).drop_last() =~= before);
            assert(s@.subrange(start as int, i as int).push(s@[i as int]) =~= s@.subrange(
                start as int,
                i as int + 1,
            ));
        }
        i = i + 1;
    }
    let ghost before = pieces.deep_view();
    pieces.push(s.substring_char(start, chars.len()).to_owned());
    assert(s@.take(chars.len() as int) =~= s@);
    assert(pieces.deep_view() =~= before.push(s@.subrange(start as int, chars.len() as int)));
    pieces
}

/// The pieces that hold at least one character.
pub fn keep_nonempty(pieces: Vec<String>) -> (r: Vec<String>)
    ensures
        r.deep_view() == pieces.deep_view().filter(nonempty()),
{
    let mut kept: Vec<String> = Vec::new();
    let ghost all = pieces.deep_view();
    let mut i: usize = 0;
    proof {
        reveal(Seq::filter);
    }
    while i < pieces.len()
        invariant
            i <= pieces.len(),
            all == pieces.deep_view(),
            kept.deep_view() == all.take(i as int).filter(nonempty()),
        decreases pieces.len() - i,
    {
        let ghost before = kept.deep_view();
        proof {
            reveal(Seq::filter);
            assert(all.take(i as int + 1).drop_last() =~= all.take(i as int));
        }
        if !pieces[i].as_str().is_empty() {
            kept.push(pieces[i].clone());
            assert(kept.deep_view() =~= before.push(all[i as int]));
        }
        i = i + 1;
    }
    assert(all.take(pieces.len() as int) =~= all);
    kept
}

/// The words of `s`: what stands between whitespace.
pub fn split_words(s: &str) -> (r: Vec<String>)
    ensures
        r.deep_view() == words(s@),
{
    keep_nonempty(split_at_class(s, &CharClass::Whitespace))
}

/// The parts one after the other, with `sep` between each two of them.
pub fn joined(parts: &Vec<String>, sep: &str) -> (r: String)
    ensures
        r@ == join(parts.deep_view(), sep@),
{
    let mut text = String::new();
    let ghost all = parts.deep_view();
    let mut i: usize = 0;
    while i < parts.len()
        invariant
            i <= parts.len(),
            all == parts.deep_view(),
            text@ == join(all.take(i as int), sep@),
        decreases parts.len() - i,
    {
        assert(all.take(i as int + 1).drop_last() =~= all.take(i as int));
        if i > 0 {
            text.append(sep);
        }
        text.append(parts[i].as_str());
        i = i + 1;
    }
    assert(all.take(parts.len() as int) =~= all);
    text
}

/// `s` without `prefix` where it starts with it, else `s` itself.
pub fn without_prefix<'a>(s: &'a str, prefix: &str) -> (r: &'a str)
    ensures
        r@ == strip_prefix(s@, prefix@),
{
    let chars = chars_of(s);
    let start = chars_of(prefix);
    if start.len() > chars.len() {
        return s;
    }
    let mut i: usize = 0;
    while i < start.len()
        invariant
            chars@ == s@,
            start@ == prefix@,
            i <= start.len() <= chars.len(),
            forall|j: int| 0 <= j < i ==> prefix@[j] == s@[j],
        decreases start.len() - i,
    {
        if start[i] != chars[i] {
            assert(prefix@[i as int] != s@.subrange(0, prefix@.len() as int)[i as int]);
            return s;
        }
        i = i + 1;
    }
    assert(prefix@ =~= s@.subrange(0, prefix@.len() as int));
    assert(s@.skip(prefix@.len() as int) =~= s@.subrange(prefix@.len() as int, s@.len() as int));
    s.substring_char(start.len(), chars.len())
}

/// The lower-case form of an ASCII capital; any other character as it is.
fn lower(c: char) -> (r: char)
    ensures
        r == ascii_lower(c),
{
    if 'A' <= c && c <= 'Z' {
        (c as u8 + 32) as char
    } else {
        c
    }
}

/// Whether two texts are equal but for the case of ASCII letters.
pub fn eq_ignoring_ascii_case(a: &str, b: &str) -> (r: bool)
    ensures
        r == same_ignoring_ascii_case(a@, b@),
{
    let x = chars_of(a);
    let y = chars_of(b);
    if x.len() != y.len() {
        return false;
    }
    let mut i: usize = 0;
    while i < x.len()
        invariant
            x@ == a@,
            y@ == b@,
            x.len() == y.len(),
            i <= x.len(),
            forall|j: int| 0 <= j < i ==> ascii_lower(#[trigger] a@[j]) == ascii_lower(b@[j]),
        decreases x.len() - i,
    {
        if lower(x[i]) != lower(y[i]) {
            assert(ascii_lower(a@[i as int]) != ascii_lower(b@[i as int]));
            return false;
        }
        i = i + 1;
    }
    true
}

/// A decimal digit as text.
fn digit_text(d: u64) -> (r: &'static str)
    requires
        d < 10,
    ensures
        r@ == seq![digit(d as nat)],
{
    proof {
        reveal_strlit("0");
        reveal_strlit("1");
        reveal_strlit("2");
        reveal_strlit("3");
        reveal_strlit("4");
        reveal_strlit("5");
        reveal_strlit("6");
        reveal_strlit("7");
        reveal_strlit("8");
        reveal_strlit("9");
    }
    match d {
        0 => "0",
        1 => "1",
        2 => "2",
        3 => "3",
        4 => "4",
        5 => "5",
        6 => "6",
        7 => "7",
        8 => "8",
        _ => "9",
    }
}

/// `n` in decimal, without leading zeros.
pub fn decimal_text(n: u64) -> (r: String)
    ensures
        r@ == decimal(n as nat),
    decreases n,
{
    if n < 10 {
        digit_text(n).to_owned()
    } else {
        let mut text = decimal_text(n / 10);
        text.append(digit_text(n % 10));
        text
    }
}

/// `n` in decimal, with a minus sign in front where it is negative.
pub fn signed_decimal_text(n: i64) -> (r: String)
    ensures
        r@ == signed_decimal(n as int),
{
    if n < 0 {
        let magnitude: u64 = (-(n as i128)) as u64;
        let mut text = "-".to_owned();
        text.append(decimal_text(magnitude).as_str());
        text
    } else {
        decimal_text(n as u64)
    }
}

/// What a filter keeps was there before.
pub(crate) proof fn lemma_filtered_is_from<A>(s: Seq<A>, keep: spec_fn(A) -> bool, i: int)
    requires
        0 <= i < s.filter(keep).len(),
    ensures
        exists|j: int| 0 <= j < s.len() && s[j] == s.filter(keep)[i],
    decreases s.len(),
{
    reveal(Seq::filter);
    if s.len() > 0 {
        let front = s.drop_last();
        if i < front.filter(keep).len() {
            lemma_filtered_is_from(front, keep, i);
            let j = choose|j: int| 0 <= j < front.len() && front[j] == front.filter(keep)[i];
            assert(s[j] == s.filter(keep)[i]);
        } else {
            assert(s[s.len() - 1] == s.filter(keep)[i]);
        }
    }
}

/// Filtering what a map gives is mapping what a filter keeps.
pub(crate) proof fn lemma_filter_of_map<A, B>(
    s: Seq<A>,
    f: spec_fn(A) -> B,
    keep: spec_fn(B) -> bool,
)
    ensures
        s.map_values(f).filter(keep) == s.filter(|a: A| keep(f(a))).map_values(f),
    decreases s.len(),
{
    reveal(Seq::filter);
    if s.len() > 0 {
        let front = s.drop_last();
        lemma_filter_of_map(front, f, keep);
        assert(s.map_values(f).drop_last() =~= front.map_values(f));
        assert(s.map_values(f).last() == f(s.last()));
        assert(s.map_values(f).filter(keep) =~= s.filter(|a: A| keep(f(a))).map_values(f));
    } else {
        assert(s.map_values(f).filter(keep) =~= s.filter(|a: A| keep(f(a))).map_values(f));
    }
}

/// Trimming the start leaves a suffix that does not start in the class.
pub proof fn law_trim_start(s: Seq<char>, class: CharClass)
    ensures
        trim_start(s, class).len() <= s.len(),
        trim_start(s, class) == s.skip(s.len() - trim_start(s, class).len()),
        trim_start(s, class).len() > 0 ==> !class.has(trim_start(s, class).first()),
        forall|i: int| 0 <= i < s.len() - trim_start(s, class).len() ==> class.has(#[trigger] s[i]),
    decreases s.len(),
{
    if s.len() > 0 && class.has(s.first()) {
        let rest = s.drop_first();
        law_trim_start(rest, class);
        assert(trim_start(s, class) =~= s.skip(s.len() - trim_start(s, class).len()));
        assert forall|i: int| 0 <= i < s.len() - trim_start(s, class).len() implies class.has(
            #[trigger] s[i],
        ) by {
            if i > 0 {
                assert(rest[i - 1] == s[i]);
            }
        }
    } else {
        assert(s.skip(0) =~= s);
    }
}

/// Trimming the end leaves a prefix that does not end in the class.
pub proof fn law_trim_end(s: Seq<char>, class: CharClass)
    ensures
        trim_end(s, class).len() <= s.len(),
        trim_end(s, class) == s.take(trim_end(s, class).len() as int),
        trim_end(s, class).len() > 0 ==> !class.has(trim_end(s, class).last()),
        forall|i: int| trim_end(s, class).len() <= i < s.len() ==> class.has(#[trigger] s[i]),
    decreases s.len(),
{
    if s.len() > 0 && class.has(s.last()) {
        let front = s.drop_last();
        law_trim_end(front, class);
        assert(trim_end(s, class) =~= s.take(trim_end(s, class).len() as int));
        assert forall|i: int| trim_end(s, class).len() <= i < s.len() implies class.has(
            #[trigger] s[i],
        ) by {
            if i < front.len() {
                assert(front[i] == s[i]);
            }
        }
    } else {
        assert(s.take(s.len() as int) =~= s);
    }
}

/// Trimmed text neither starts nor ends with whitespace, and trimming it once
/// more changes nothing.
pub proof fn law_trim(s: Seq<char>)
    ensures
        trim(s).len() > 0 ==> !is_whitespace(trim(s).first()) && !is_whitespace(trim(s).last()),
        trim(trim(s)) == trim(s),
{
    let class = CharClass::Whitespace;
    let t = trim_start(s, class);
    law_trim_start(s, class);
    law_trim_end(t, class);
    let r = trim_end(t, class);
    if r.len() > 0 {
        assert(r.first() == t.first());
    }
    assert(trim_start(r, class) == r);
    assert(trim_end(r, class) == r);
}

/// Trimming brings in no character that was not there.
pub(crate) proof fn lemma_trim_keeps_out(s: Seq<char>, c: char)
    requires
        forall|i: int| 0 <= i < s.len() ==> #[trigger] s[i] != c,
    ensures
        forall|i: int| 0 <= i < trim(s).len() ==> #[trigger] trim(s)[i] != c,
{
    let t = trim_start(s, CharClass::Whitespace);
    law_trim_start(s, CharClass::Whitespace);
    law_trim_end(t, CharClass::Whitespace);
    assert forall|i: int| 0 <= i < trim(s).len() implies #[trigger] trim(s)[i] != c by {
        assert(trim(s)[i] == s[s.len() - t.len() + i]);
    }
}

/// Nothing is left of a text exactly where it is all whitespace.
pub proof fn law_trim_is_empty(s: Seq<char>)
    ensures
        trim(s).len() == 0 <==> forall|i: int| 0 <= i < s.len() ==> is_whitespace(#[trigger] s[i]),
{
    let class = CharClass::Whitespace;
    let t = trim_start(s, class);
    law_trim_start(s, class);
    law_trim_end(t, class);
    let gone = s.len() - t.len();
    if trim(s).len() == 0 {
        assert forall|i: int| 0 <= i < s.len() implies is_whitespace(#[trigger] s[i]) by {
            if i < gone {
                assert(class.has(s[i]));
            } else {
                assert(t[i - gone] == s[i]);
                assert(class.has(t[i - gone]));
            }
        }
    } else if forall|i: int| 0 <= i < s.len() ==> is_whitespace(#[trigger] s[i]) {
        assert(t.len() > 0);
        assert(t[0] == s[gone]);
        assert(!class.has(t[0]));
    }
}

/// There is always a piece, and no piece holds a character of the class.
pub proof fn law_split_pieces(s: Seq<char>, class: CharClass)
    ensures
        split(s, class).len() > 0,
        forall|i: int, j: int|
            #![trigger split(s, class)[i][j]]
            0 <= i < split(s, class).len() && 0 <= j < split(s, class)[i].len() ==> !class.has(
                split(s, class)[i][j],
            ),
    decreases s.len(),
{
    if s.len() > 0 {
        let front = split(s.drop_last(), class);
        law_split_pieces(s.drop_last(), class);
        assert forall|i: int, j: int|
            #![trigger split(s, class)[i][j]]
            0 <= i < split(s, class).len() && 0 <= j < split(s, class)[i].len() implies !class.has(
            split(s, class)[i][j],
        ) by {
            if i < front.len() - 1 || class.has(s.last()) {
                if i < front.len() {
                    assert(split(s, class)[i] == front[i]);
                    assert(!class.has(front[i][j]));
                }
            } else if j < front.last().len() {
                assert(!class.has(front[front.len() - 1][j]));
            }
        }
    }
}

/// Joining the pieces of a split gives the text back.
pub proof fn law_join_of_split(s: Seq<char>, sep: char)
    ensures
        join(split(s, CharClass::Only(sep)), seq![sep]) == s,
    decreases s.len(),
{
    let class = CharClass::Only(sep);
    let pieces = split(s, class);
    if s.len() == 0 {
        reveal_with_fuel(join, 2);
        assert(join(pieces, seq![sep]) =~= s);
    } else {
        let front = split(s.drop_last(), class);
        law_split_pieces(s.drop_last(), class);
        law_join_of_split(s.drop_last(), sep);
        if class.has(s.last()) {
            assert(pieces.drop_last() =~= front);
            assert(join(pieces, seq![sep]) =~= s.drop_last() + seq![sep]);
        } else {
            assert(pieces.drop_last() =~= front.drop_last());
            assert(join(pieces, seq![sep]) =~= join(front, seq![sep]).push(s.last()));
        }
        assert(s =~= s.drop_last().push(s.last()));
    }
}

/// Text without characters of the class lengthens the last piece.
proof fn lemma_split_of_longer(a: Seq<char>, b: Seq<char>, class: CharClass)
    requires
        forall|i: int| 0 <= i < b.len() ==> !class.has(#[trigger] b[i]),
    ensures
        split(a + b, class) == split(a, class).drop_last().push(split(a, class).last() + b),
    decreases b.len(),
{
    law_split_pieces(a, class);
    if b.len() == 0 {
        assert(a + b =~= a);
        assert(split(a, class).last() + b =~= split(a, class).last());
        assert(split(a, class).drop_last().push(split(a, class).last()) =~= split(a, class));
    } else {
        let front = b.drop_last();
        lemma_split_of_longer(a, front, class);
        assert((a + b).drop_last() =~= a + front);
        assert((a + b).last() == b.last());
        let pieces = split(a + front, class);
        assert(pieces.drop_last() =~= split(a, class).drop_last());
        assert(pieces.last().push(b.last()) =~= split(a, class).last() + b);
    }
}

/// Whether a name survives a list of names: it is trimmed and holds no comma.
pub open spec fn is_list_item(name: Seq<char>) -> bool {
    trim(name) == name && forall|i: int| 0 <= i < name.len() ==> #[trigger] name[i] != ','
}

/// Joining names by commas and blanks, splitting the text at its commas and
/// trimming the pieces gives the names back.
pub proof fn law_list_of_names_round_trip(names: Seq<Seq<char>>)
    requires
        names.len() > 0,
        forall|i: int| 0 <= i < names.len() ==> is_list_item(#[trigger] names[i]),
    ensures
        split(join(names, ", "@), CharClass::Only(',')).map_values(|name: Seq<char>| trim(name))
            == names,
    decreases names.len(),
{
    let class = CharClass::Only(',');
    let clean = |name: Seq<char>| trim(name);
    let sep = ", "@;
    reveal_strlit(", ");
    assert(sep =~= seq![',', ' ']);
    let front = names.drop_last();
    let last = names.last();
    assert(is_list_item(names[names.len() - 1]));
    if front.len() == 0 {
        assert(join(front, sep) =~= Seq::<char>::empty());
        assert(join(names, sep) =~= Seq::<char>::empty() + last);
        lemma_split_of_longer(Seq::empty(), last, class);
        assert(split(Seq::empty(), class).last() + last =~= last);
        assert(split(join(names, sep), class) =~= seq![last]);
        assert(split(join(names, sep), class).map_values(clean) =~= names);
    } else {
        assert forall|i: int| 0 <= i < front.len() implies is_list_item(#[trigger] front[i]) by {
            assert(front[i] == names[i]);
        }
        law_list_of_names_round_trip(front);
        let head = join(front, sep);
        let head_comma = head.push(',');
        let tail = seq![' '] + last;
        assert(join(names, sep) =~= head_comma + tail);
        assert(head_comma.drop_last() =~= head);
        let pieces = split(head_comma, class);
        assert(pieces == split(head, class).push(Seq::<char>::empty()));
        assert forall|i: int| 0 <= i < tail.len() implies !class.has(#[trigger] tail[i]) by {
            if i > 0 {
                assert(tail[i] == last[i - 1]);
            }
        }
        lemma_split_of_longer(head_comma, tail, class);
        assert(pieces.drop_last() =~= split(head, class));
        assert(pieces.last() + tail =~= tail);
        assert(tail.drop_first() =~= last);
        assert(trim_start(tail, CharClass::Whitespace) == trim_start(
            last,
            CharClass::Whitespace,
        ));
        let all = split(join(names, sep), class);
        assert(all =~= split(head, class).push(tail));
        assert(all.map_values(clean) =~= split(head, class).map_values(clean).push(trim(tail)));
        assert(front.push(last) =~= names);
    }
}

/// No word is empty, and no word holds whitespace.
pub proof fn law_words(s: Seq<char>)
    ensures
        forall|i: int| 0 <= i < words(s).len() ==> (#[trigger] words(s)[i]).len() > 0,
        forall|i: int, j: int|
            #![trigger words(s)[i][j]]
            0 <= i < words(s).len() && 0 <= j < words(s)[i].len() ==> !is_whitespace(
                words(s)[i][j],
            ),
{
    let class = CharClass::Whitespace;
    let pieces = split(s, class);
    law_split_pieces(s, class);
    assert forall|i: int| 0 <= i < words(s).len() implies (#[trigger] words(s)[i]).len() > 0 by {
        pieces.lemma_filter_pred(nonempty(), i);
    }
    assert forall|i: int, j: int|
        #![trigger words(s)[i][j]]
        0 <= i < words(s).len() && 0 <= j < words(s)[i].len() implies !is_whitespace(
        words(s)[i][j],
    ) by {
        lemma_filtered_is_from(pieces, nonempty(), i);
        let k = choose|k: int| 0 <= k < pieces.len() && pieces[k] == words(s)[i];
        assert(!class.has(pieces[k][j]));
    }
}

/// A character outside the class stands in some piece.
proof fn lemma_split_has_nonempty(s: Seq<char>, class: CharClass, k: int) -> (i: int)
    requires
        0 <= k < s.len(),
        !class.has(s[k]),
    ensures
        0 <= i < split(s, class).len(),
        split(s, class)[i].len() > 0,
    decreases s.len(),
{
    let front = split(s.drop_last(), class);
    law_split_pieces(s.drop_last(), class);
    if k == s.len() - 1 {
        front.len() - 1
    } else {
        lemma_split_has_nonempty(s.drop_last(), class, k)
    }
}

/// Text that is not blank holds a word.
pub(crate) proof fn lemma_text_has_words(s: Seq<char>)
    requires
        trim(s).len() > 0,
    ensures
        words(trim(s)).len() > 0,
{
    let t = trim(s);
    law_trim(s);
    let i = lemma_split_has_nonempty(t, CharClass::Whitespace, 0);
    let pieces = split(t, CharClass::Whitespace);
    pieces.lemma_filter_contains(nonempty(), i);
}

/// A class of one character holds that character and no other; the class of
/// whitespace holds what has one of these code points.
pub proof fn law_char_class(c: char, only: char)
    ensures
        CharClass::Only(only).has(c) <==> c == only,
        CharClass::Whitespace.has(c) <==> is_whitespace(c),
        is_whitespace(c) <==> {
            ||| 0x9 <= c as u32 <= 0xd
            ||| c as u32 == 0x20
            ||| c as u32 == 0x85
            ||| c as u32 == 0xa0
            ||| c as u32 == 0x1680
            ||| 0x2000 <= c as u32 <= 0x200a
            ||| c as u32 == 0x2028
            ||| c as u32 == 0x2029
            ||| c as u32 == 0x202f
            ||| c as u32 == 0x205f
            ||| c as u32 == 0x3000
        },
{
}

/// Where trimmed text starts and ends in the text.
pub(crate) proof fn lemma_trim_bounds(s: Seq<char>) -> (r: (int, int))
    ensures
        0 <= r.0 <= r.1 <= s.len(),
        trim(s) == s.subrange(r.0, r.1),
        forall|k: int| 0 <= k < r.0 || r.1 <= k < s.len() ==> is_whitespace(#[trigger] s[k]),
        r.0 < r.1 ==> !is_whitespace(s[r.0]) && !is_whitespace(s[r.1 - 1]),
{
    let class = CharClass::Whitespace;
    let t = trim_start(s, class);
    law_trim_start(s, class);
    law_trim_end(t, class);
    law_trim(s);
    let r = trim(s);
    let i = s.len() - t.len();
    let j = i + r.len();
    assert(r =~= s.subrange(i, j));
    assert forall|k: int| 0 <= k < i || j <= k < s.len() implies is_whitespace(#[trigger] s[k]) by {
        if k < i {
            assert(class.has(s[k]));
        } else {
            assert(t[k - i] == s[k]);
            assert(class.has(t[k - i]));
        }
    }
    if i < j {
        assert(r.first() == s[i]);
        assert(r.last() == s[j - 1]);
    }
    (i, j)
}

/// Trimmed text is a part of the text with nothing but whitespace before and
/// behind it, and no whitespace at its own ends.
pub proof fn law_trim_is_what_stands_between_blanks(s: Seq<char>)
    ensures
        exists|i: int, j: int|
            #![trigger s.subrange(i, j)]
            {
                &&& 0 <= i <= j <= s.len()
                &&& trim(s) == s.subrange(i, j)
                &&& forall|k: int| 0 <= k < i || j <= k < s.len() ==> is_whitespace(#[trigger] s[k])
                &&& i < j ==> !is_whitespace(s[i]) && !is_whitespace(s[j - 1])
            },
{
    let (i, j) = lemma_trim_bounds(s);
    assert(trim(s) == s.subrange(i, j));
}

/// Text with a character of the class in it is cut there: its pieces are those
/// of what stands before, then those of what stands behind.
pub proof fn law_split_at_separator(a: Seq<char>, c: char, b: Seq<char>, class: CharClass)
    requires
        class.has(c),
    ensures
        split(a.push(c) + b, class) == split(a, class) + split(b, class),
    decreases b.len(),
{
    let whole = a.push(c) + b;
    law_split_pieces(b, class);
    if b.len() == 0 {
        assert(whole.drop_last() =~= a);
        assert(whole.last() == c);
        assert(split(a, class) + split(b, class) =~= split(a, class).push(Seq::empty()));
    } else {
        let front = b.drop_last();
        law_split_at_separator(a, c, front, class);
        law_split_pieces(front, class);
        assert(whole.drop_last() =~= a.push(c) + front);
        assert(whole.last() == b.last());
        let pieces = split(a, class) + split(front, class);
        if class.has(b.last()) {
            assert(pieces.push(Seq::empty()) =~= split(a, class) + split(b, class));
        } else {
            assert(pieces.drop_last().push(pieces.last().push(b.last())) =~= split(a, class)
                + split(b, class));
        }
    }
}

/// Text without a character of the class is one piece.
pub proof fn law_split_without_separator(s: Seq<char>, class: CharClass)
    requires
        forall|i: int| 0 <= i < s.len() ==> !class.has(#[trigger] s[i]),
    ensures
        split(s, class) == seq![s],
{
    let none = Seq::<char>::empty();
    lemma_split_of_longer(none, s, class);
    assert(none + s =~= s);
    assert(split(none, class).last() + s =~= s);
    assert(split(s, class) =~= seq![s]);
}

/// The words of a text are cut at each whitespace, wherever it stands: first
/// those before it, then those behind it.
pub proof fn law_words_are_cut_at_whitespace(a: Seq<char>, c: char, b: Seq<char>)
    requires
        is_whitespace(c),
    ensures
        words(a.push(c) + b) == words(a) + words(b),
{
    let class = CharClass::Whitespace;
    law_split_at_separator(a, c, b, class);
    Seq::filter_distributes_over_add(split(a, class), split(b, class), nonempty());
}

/// Text without whitespace is one word, unless it is empty.
pub proof fn law_words_of_one_word(s: Seq<char>)
    requires
        forall|i: int| 0 <= i < s.len() ==> !is_whitespace(#[trigger] s[i]),
    ensures
        s.len() > 0 ==> words(s) == seq![s],
        s.len() == 0 ==> words(s) == Seq::<Seq<char>>::empty(),
{
    let class = CharClass::Whitespace;
    assert forall|i: int| 0 <= i < s.len() implies !class.has(#[trigger] s[i]) by {
        assert(!is_whitespace(s[i]));
    }
    law_split_without_separator(s, class);
    reveal(Seq::filter);
    let none = Seq::<Seq<char>>::empty();
    assert(seq![s].drop_last() =~= none);
    assert(none.filter(nonempty()) =~= none);
    if s.len() > 0 {
        assert(words(s) =~= seq![s]);
    } else {
        assert(!nonempty()(s));
        assert(words(s) =~= none);
    }
}

/// The pieces one after the other are the text without the characters of the class.
proof fn lemma_split_flatten(s: Seq<char>, class: CharClass)
    ensures
        split(s, class).flatten() == s.filter(|c: char| !class.has(c)),
    decreases s.len(),
{
    broadcast use Seq::lemma_flatten_push;

    reveal(Seq::filter);
    let none = Seq::<char>::empty();
    if s.len() == 0 {
        seq![none].lemma_flatten_one_element();
        assert(s.filter(|c: char| !class.has(c)) =~= none);
    } else {
        let front = split(s.drop_last(), class);
        lemma_split_flatten(s.drop_last(), class);
        law_split_pieces(s.drop_last(), class);
        if class.has(s.last()) {
            assert(front.push(none).flatten() =~= front.flatten() + none);
        } else {
            let init = front.drop_last();
            assert(init.push(front.last()) =~= front);
            assert(front.flatten() == init.flatten() + front.last());
            assert(init.push(front.last().push(s.last())).flatten() =~= front.flatten().push(
                s.last(),
            ));
        }
        assert(split(s, class).flatten() =~= s.filter(|c: char| !class.has(c)));
    }
}

/// Empty pieces add nothing.
proof fn lemma_flatten_nonempty(pieces: Seq<Seq<char>>)
    ensures
        pieces.filter(nonempty()).flatten() == pieces.flatten(),
    decreases pieces.len(),
{
    broadcast use Seq::lemma_flatten_push;

    reveal(Seq::filter);
    if pieces.len() > 0 {
        let front = pieces.drop_last();
        lemma_flatten_nonempty(front);
        assert(front.push(pieces.last()) =~= pieces);
        assert(pieces.flatten() == front.flatten() + pieces.last());
        assert(pieces.filter(nonempty()).flatten() =~= pieces.flatten());
    }
}

/// The words of a text one after the other are the text without its
/// whitespace: none is lost, and none is changed.
pub proof fn law_words_lose_nothing(s: Seq<char>)
    ensures
        words(s).flatten() == s.filter(|c: char| !is_whitespace(c)),
{
    let class = CharClass::Whitespace;
    lemma_split_flatten(s, class);
    lemma_flatten_nonempty(split(s, class));
    assert((|c: char| !class.has(c)) =~= (|c: char| !is_whitespace(c)));
}

/// Joining parts in two lots and the lots by the separator is joining them all.
pub proof fn law_join_in_lots(a: Seq<Seq<char>>, b: Seq<Seq<char>>, sep: Seq<char>)
    requires
        a.len() > 0,
        b.len() > 0,
    ensures
        join(a + b, sep) == join(a, sep) + sep + join(b, sep),
    decreases b.len(),
{
    let front = b.drop_last();
    assert((a + b).drop_last() =~= a + front);
    assert((a + b).last() == b.last());
    if front.len() == 0 {
        assert(a + front =~= a);
        law_join_of_one(b.last(), sep);
        assert(b =~= seq![b.last()]);
        assert(join(a + b, sep) =~= join(a, sep) + sep + b.last());
    } else {
        law_join_in_lots(a, front, sep);
        assert(join(a + b, sep) =~= join(a, sep) + sep + join(b, sep));
    }
}

/// One part joined is that part, and no parts joined are no text.
pub proof fn law_join_of_one(part: Seq<char>, sep: Seq<char>)
    ensures
        join(seq![part], sep) == part,
        join(Seq::<Seq<char>>::empty(), sep) == Seq::<char>::empty(),
{
    reveal_with_fuel(join, 2);
    assert(join(seq![part], sep) =~= part);
}

/// A prefix is taken off exactly where the text starts with it.
pub proof fn law_strip_prefix(s: Seq<char>, prefix: Seq<char>, rest: Seq<char>)
    ensures
        strip_prefix(prefix + rest, prefix) == rest,
        (forall|tail: Seq<char>| s != #[trigger] (prefix + tail)) ==> strip_prefix(s, prefix) == s,
{
    assert(prefix =~= (prefix + rest).subrange(0, prefix.len() as int));
    assert((prefix + rest).skip(prefix.len() as int) =~= rest);
    if prefix.is_prefix_of(s) {
        assert(s =~= prefix + s.skip(prefix.len() as int));
    }
}

/// Two texts are equal but for case exactly where they are equally long and at
/// each place hold the same character, or the capital and the small form of
/// one ASCII letter.
pub proof fn law_same_ignoring_ascii_case(a: Seq<char>, b: Seq<char>)
    ensures
        same_ignoring_ascii_case(a, b) <==> {
            &&& a.len() == b.len()
            &&& forall|i: int|
                #![trigger a[i]]
                0 <= i < a.len() ==> {
                    ||| a[i] == b[i]
                    ||| 'A' <= a[i] <= 'Z' && b[i] as u32 == a[i] as u32 + 32
                    ||| 'A' <= b[i] <= 'Z' && a[i] as u32 == b[i] as u32 + 32
                }
        },
{
    if same_ignoring_ascii_case(a, b) {
        assert forall|i: int|
            #![trigger a[i]]
            0 <= i < a.len() implies {
            ||| a[i] == b[i]
            ||| 'A' <= a[i] <= 'Z' && b[i] as u32 == a[i] as u32 + 32
            ||| 'A' <= b[i] <= 'Z' && a[i] as u32 == b[i] as u32 + 32
        } by {
            assert(ascii_lower(a[i]) == ascii_lower(b[i]));
        }
    }
}

/// The number that a row of decimal digits stands for.
pub open spec fn decimal_value(s: Seq<char>) -> int
    decreases s.len(),
{
    if s.len() == 0 {
        0
    } else {
        10 * decimal_value(s.drop_last()) + (s.last() as u32 - 48)
    }
}

/// A number in decimal is a row of digits that stands for it, and only zero
/// starts with a zero.
pub proof fn law_decimal(n: nat)
    ensures
        decimal_value(decimal(n)) == n,
        decimal(n).len() > 0,
        forall|i: int| 0 <= i < decimal(n).len() ==> '0' <= #[trigger] decimal(n)[i] <= '9',
        n > 0 ==> decimal(n).first() != '0',
        n == 0 ==> decimal(n) == seq!['0'],
    decreases n,
{
    reveal_with_fuel(decimal_value, 2);
    if n < 10 {
        assert(decimal(n).drop_last() =~= Seq::<char>::empty());
        assert(decimal(n) =~= seq![digit(n)]);
    } else {
        law_decimal(n / 10);
        assert(decimal(n).drop_last() =~= decimal(n / 10));
        assert(decimal(n).first() == decimal(n / 10).first());
        assert forall|i: int| 0 <= i < decimal(n).len() implies '0' <= #[trigger] decimal(n)[i]
            <= '9' by {
            if i < decimal(n).len() - 1 {
                assert(decimal(n)[i] == decimal(n / 10)[i]);
            }
        }
    }
}

/// A negative number is a minus sign and the number without it; any other
/// number has no sign.
pub proof fn law_signed_decimal(n: nat)
    ensures
        signed_decimal(n as int) == decimal(n),
        n > 0 ==> signed_decimal(-n) == seq!['-'] + decimal(n),
{
    reveal_strlit("-");
    assert("-"@ =~= seq!['-']);
}

/// Joined text is all whitespace exactly where each of its parts is, if the
/// separator is.
pub(crate) proof fn lemma_join_is_blank(parts: Seq<Seq<char>>, sep: Seq<char>)
    requires
        forall|i: int| 0 <= i < sep.len() ==> is_whitespace(#[trigger] sep[i]),
    ensures
        (forall|k: int|
            0 <= k < join(parts, sep).len() ==> is_whitespace(#[trigger] join(parts, sep)[k]))
            <==> (forall|i: int, j: int|
            0 <= i < parts.len() && 0 <= j < parts[i].len() ==> is_whitespace(
                #[trigger] parts[i][j],
            )),
    decreases parts.len(),
{
    if parts.len() > 0 {
        let front = parts.drop_last();
        let last = parts.last();
        let head = join(front, sep);
        let whole = join(parts, sep);
        let gap = if parts.len() == 1 {
            Seq::empty()
        } else {
            sep
        };
        lemma_join_is_blank(front, sep);
        assert(whole == head + gap + last);
        if forall|k: int| 0 <= k < whole.len() ==> is_whitespace(#[trigger] whole[k]) {
            assert forall|k: int| 0 <= k < head.len() implies is_whitespace(#[trigger] head[k]) by {
                assert(whole[k] == head[k]);
            }
            assert forall|i: int, j: int|
                0 <= i < parts.len() && 0 <= j < parts[i].len() implies is_whitespace(
                #[trigger] parts[i][j],
            ) by {
                if i < front.len() {
                    assert(front[i][j] == parts[i][j]);
                } else {
                    assert(whole[head.len() + gap.len() + j] == last[j]);
                }
            }
        }
        if forall|i: int, j: int|
            0 <= i < parts.len() && 0 <= j < parts[i].len() ==> is_whitespace(
                #[trigger] parts[i][j],
            ) {
            assert forall|i: int, j: int|
                0 <= i < front.len() && 0 <= j < front[i].len() implies is_whitespace(
                #[trigger] front[i][j],
            ) by {
                assert(front[i][j] == parts[i][j]);
            }
            assert forall|k: int| 0 <= k < whole.len() implies is_whitespace(#[trigger] whole[k]) by {
                if k < head.len() {
                    assert(whole[k] == head[k]);
                } else if k < head.len() + gap.len() {
                    assert(whole[k] == sep[k - head.len()]);
                } else {
                    assert(whole[k] == parts[parts.len() - 1][k - head.len() - gap.len()]);
                }
            }
        }
    }
}

/// Of blank text a filter that leaves out whitespace keeps nothing.
proof fn lemma_filter_of_blank(s: Seq<char>)
    requires
        forall|i: int| 0 <= i < s.len() ==> is_whitespace(#[trigger] s[i]),
    ensures
        s.filter(|c: char| !is_whitespace(c)) == Seq::<char>::empty(),
    decreases s.len(),
{
    reveal(Seq::filter);
    if s.len() > 0 {
        let front = s.drop_last();
        assert(is_whitespace(s[s.len() - 1]));
        assert forall|i: int| 0 <= i < front.len() implies is_whitespace(#[trigger] front[i]) by {
            assert(front[i] == s[i]);
        }
        lemma_filter_of_blank(front);
    }
    assert(s.filter(|c: char| !is_whitespace(c)) =~= Seq::<char>::empty());
}

/// The words of trimmed text one after the other are the text, trimmed or not,
/// without its whitespace.
pub proof fn law_words_of_trimmed_text_lose_nothing(s: Seq<char>)
    ensures
        words(trim(s)).flatten() == s.filter(|c: char| !is_whitespace(c)),
{
    let black = |c: char| !is_whitespace(c);
    let (i, j) = lemma_trim_bounds(s);
    let a = s.take(i);
    let t = s.subrange(i, j);
    let b = s.skip(j);
    law_words_lose_nothing(t);
    assert(s =~= a + t + b);
    Seq::filter_distributes_over_add(a + t, b, black);
    Seq::filter_distributes_over_add(a, t, black);
    assert forall|k: int| 0 <= k < a.len() implies is_whitespace(#[trigger] a[k]) by {
        assert(a[k] == s[k]);
    }
    assert forall|k: int| 0 <= k < b.len() implies is_whitespace(#[trigger] b[k]) by {
        assert(b[k] == s[j + k]);
    }
    lemma_filter_of_blank(a);
    lemma_filter_of_blank(b);
    assert(s.filter(black) =~= t.filter(black));
}

} // verus!
