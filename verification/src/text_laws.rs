//! What holds of all texts.
use crate::text::{
    all_digits,
    ascii_lower,
    ascii_upper,
    before_first,
    byte_count,
    decimal,
    decimal_text,
    digits_value,
    first_at,
    first_from,
    lines,
    not_after,
    trimmed,
    white_space,
    without_lead,
    without_tail,
};
use vstd::prelude::*;

verus! {

/// A number is read back from its decimal text, as far as it fits; with a plus before it too.
pub proof fn law_numbers_are_read_back(n: nat, max: nat)
    ensures
        n <= max ==> decimal(decimal_text(n), max) == Some(n),
        n > max ==> decimal(decimal_text(n), max) is None,
        decimal(seq!['+'] + decimal_text(n), max) == decimal(decimal_text(n), max),
{
    crate::text::lemma_digits_of(n);
    let t = decimal_text(n);
    assert(crate::text::is_digit(t[0]));
    assert((seq!['+'] + t).drop_first() =~= t);
}

/// One more digit adds one more place; without digits there is no number, nor with anything else
/// among them.
pub proof fn law_digits_add_places(s: Seq<char>, c: char, max: nat)
    requires
        s.len() > 0,
        '0' <= s[0] <= '9',
    ensures
        ({
            let more = decimal(s.push(c), max);
            &&& more is Some <==> decimal(s, max) is Some && '0' <= c <= '9' && 10 * decimal(s, max)->0
                + (c as int - '0' as int) <= max
            &&& more is Some ==> more->0 == 10 * decimal(s, max)->0 + (c as int - '0' as int)
        }),
        decimal(seq![c], max) is Some <==> '0' <= c <= '9' && c as int - '0' as int <= max,
        decimal(seq![c], max) is Some ==> decimal(seq![c], max)->0 == c as int - '0' as int,
        decimal(Seq::<char>::empty(), max) is None,
{
    let t = s.push(c);
    assert(t.drop_last() =~= s);
    if all_digits(t) {
        assert forall|i: int| 0 <= i < s.len() implies crate::text::is_digit(#[trigger] s[i]) by {
            assert(t[i] == s[i]);
        }
        assert(crate::text::is_digit(t[t.len() - 1]));
    }
    if all_digits(s) && '0' <= c && c <= '9' {
        assert forall|i: int| 0 <= i < t.len() implies crate::text::is_digit(#[trigger] t[i]) by {
            if i < s.len() {
                assert(t[i] == s[i]);
            }
        }
    }
    let one = seq![c];
    assert(one.drop_last() =~= Seq::empty());
    reveal_with_fuel(digits_value, 2);
    assert(digits_value(Seq::<char>::empty()) == 0);
    if '0' <= c && c <= '9' {
        assert(all_digits(one));
        assert(one.last() == c);
    } else if c == '+' {
        assert(one.drop_first() =~= Seq::empty());
    } else {
        assert(!crate::text::is_digit(one[0]));
    }
}

proof fn lemma_first(s: Seq<char>, part: Seq<char>, i: int)
    requires
        0 <= i,
    ensures
        match first_from(s, part, i) {
            Some(k) => i <= k && crate::text::occurs_at(s, part, k) && forall|j: int|
                i <= j < k ==> !#[trigger] crate::text::occurs_at(s, part, j),
            None => forall|j: int| i <= j ==> !#[trigger] crate::text::occurs_at(s, part, j),
        },
    decreases s.len() - i + 1,
{
    if i <= s.len() && !crate::text::occurs_at(s, part, i) {
        lemma_first(s, part, i + 1);
    }
}

/// A part that a text holds is found where it stands first.
pub proof fn law_the_first_place_is_found(a: Seq<char>, part: Seq<char>, b: Seq<char>)
    ensures
        ({
            let s = a + part + b;
            let k = first_at(s, part);
            &&& k is Some
            &&& 0 <= k->0 <= a.len()
            &&& s.subrange(k->0, k->0 + part.len()) == part
            &&& forall|j: int| 0 <= j < k->0 ==> #[trigger] s.subrange(j, j + part.len()) != part
        }),
{
    let s = a + part + b;
    assert(s.subrange(a.len() as int, (a.len() + part.len()) as int) =~= part);
    assert(crate::text::occurs_at(s, part, a.len() as int));
    lemma_first(s, part, 0);
    let k = first_at(s, part)->0;
    assert forall|j: int| 0 <= j < k implies #[trigger] s.subrange(j, j + part.len()) != part by {
        assert(!crate::text::occurs_at(s, part, j));
    }
}

/// Trimming takes off white space at both ends, all of it, and nothing else.
pub proof fn law_trimming(a: Seq<char>, s: Seq<char>, b: Seq<char>)
    requires
        forall|i: int| 0 <= i < a.len() ==> white_space(#[trigger] a[i]),
        forall|i: int| 0 <= i < b.len() ==> white_space(#[trigger] b[i]),
        s.len() > 0 ==> !white_space(s[0]) && !white_space(s.last()),
    ensures
        trimmed(a + s + b) == s,
    decreases a.len() + b.len(),
{
    if a.len() > 0 {
        let t = a + s + b;
        assert(t[0] == a[0]);
        assert(t.skip(1) =~= a.skip(1) + s + b);
        assert forall|i: int| 0 <= i < a.skip(1).len() implies white_space(#[trigger] a.skip(1)[i]) by {
            assert(a.skip(1)[i] == a[i + 1]);
        }
        law_trimming(a.skip(1), s, b);
    } else if s.len() == 0 {
        assert(a + s + b =~= b);
        if b.len() > 0 {
            assert(b.skip(1) =~= Seq::empty() + s + b.skip(1));
            assert forall|i: int| 0 <= i < b.skip(1).len() implies white_space(
                #[trigger] b.skip(1)[i],
            ) by {
                assert(b.skip(1)[i] == b[i + 1]);
            }
            assert(white_space(b[0]));
            law_trimming(Seq::empty(), s, b.skip(1));
        } else {
            assert(b =~= s);
        }
    } else {
        let t = a + s + b;
        assert(t[0] == s[0]);
        assert(without_lead(t) == t);
        lemma_tail(s, b);
        assert(t =~= s + b);
    }
}

proof fn lemma_tail(s: Seq<char>, b: Seq<char>)
    requires
        forall|i: int| 0 <= i < b.len() ==> white_space(#[trigger] b[i]),
        s.len() > 0,
        !white_space(s.last()),
    ensures
        without_tail(s + b) == s,
    decreases b.len(),
{
    if b.len() == 0 {
        assert(s + b =~= s);
    } else {
        assert((s + b).last() == b.last());
        assert((s + b).drop_last() =~= s + b.drop_last());
        lemma_tail(s, b.drop_last());
    }
}

/// A line ends at a line feed, with or without a carriage return before it. What follows is read by
/// itself. A last line needs no line feed.
pub proof fn law_lines_end_at_line_feeds(line: Seq<char>, rest: Seq<char>)
    requires
        !line.contains('\n'),
        line.len() > 0 ==> line.last() != '\r',
    ensures
        lines(line + seq!['\n'] + rest) == seq![line] + lines(rest),
        lines(line + seq!['\r', '\n'] + rest) == seq![line] + lines(rest),
        line.len() > 0 ==> lines(line) == seq![line],
        lines(Seq::<char>::empty()) == Seq::<Seq<char>>::empty(),
{
    let s = line + seq!['\n'] + rest;
    let n = line.len() as int;
    lemma_feed(s, n);
    assert(s.subrange(0, n) =~= line);
    assert(s.subrange(n + 1, s.len() as int) =~= rest);
    let t = line + seq!['\r', '\n'] + rest;
    lemma_feed(t, n + 1);
    assert(t.subrange(0, n + 1) =~= line.push('\r'));
    assert(line.push('\r').drop_last() =~= line);
    assert(t.subrange(n + 2, t.len() as int) =~= rest);
}

proof fn lemma_feed(s: Seq<char>, n: int)
    requires
        0 <= n < s.len(),
        s[n] == '\n',
        forall|i: int| 0 <= i < n ==> s[i] != '\n',
    ensures
        s.contains('\n'),
        s.index_of_first('\n') == Some(n),
{
    s.index_of_first_ensures('\n');
}

/// Texts are ordered by the first character in which they differ; where one ends first, it comes
/// first.
pub proof fn law_texts_are_ordered(p: Seq<char>, c: char, x: Seq<char>, d: char, y: Seq<char>)
    ensures
        c != d ==> (not_after(p + seq![c] + x, p + seq![d] + y) <==> c < d),
        not_after(p, p + x),
        x.len() > 0 ==> !not_after(p + x, p),
    decreases p.len(),
{
    let (a, b) = (p + seq![c] + x, p + seq![d] + y);
    if p.len() > 0 {
        law_texts_are_ordered(p.skip(1), c, x, d, y);
        assert(a.drop_first() =~= p.skip(1) + seq![c] + x);
        assert(b.drop_first() =~= p.skip(1) + seq![d] + y);
        assert((p + x).drop_first() =~= p.skip(1) + x);
        assert(p.drop_first() =~= p.skip(1));
    } else {
        assert(a[0] == c && b[0] == d);
    }
}

/// Small letters take the place of capitals and the other way round; everything else stays, and so
/// does the length.
pub proof fn law_letters_change_case(s: Seq<char>, i: int)
    requires
        0 <= i < s.len(),
    ensures
        ascii_lower(s).len() == s.len(),
        ascii_upper(s).len() == s.len(),
        'A' <= s[i] <= 'Z' ==> 'a' <= ascii_lower(s)[i] <= 'z' && ascii_lower(s)[i] as int - 'a' as int
            == s[i] as int - 'A' as int,
        !('A' <= s[i] <= 'Z') ==> ascii_lower(s)[i] == s[i],
        'a' <= s[i] <= 'z' ==> 'A' <= ascii_upper(s)[i] <= 'Z' && ascii_upper(s)[i] as int - 'A' as int
            == s[i] as int - 'a' as int,
        !('a' <= s[i] <= 'z') ==> ascii_upper(s)[i] == s[i],
        ascii_lower(ascii_lower(s))[i] == ascii_lower(s)[i],
        ascii_lower(ascii_upper(s))[i] == ascii_lower(s)[i],
{
}

/// What stands before a character is all up to its first place.
pub proof fn law_text_before_a_character(a: Seq<char>, c: char, b: Seq<char>)
    requires
        !a.contains(c),
    ensures
        before_first(a + seq![c] + b, c) == a,
        before_first(a, c) == a,
{
    let s = a + seq![c] + b;
    let n = a.len() as int;
    assert(s[n] == c);
    assert forall|i: int| 0 <= i < n implies s[i] != c by {
        assert(a.contains(a[i]));
    }
    s.index_of_first_ensures(c);
    assert(s.subrange(0, n) =~= a);
}

/// The bytes of two texts add up, and a character of the first 128 has one.
pub proof fn law_bytes_add_up(a: Seq<char>, b: Seq<char>, c: char)
    ensures
        byte_count(a + b) == byte_count(a) + byte_count(b),
        (c as u32) < 0x80 ==> byte_count(a.push(c)) == byte_count(a) + 1,
        0x80 <= (c as u32) < 0x800 ==> byte_count(a.push(c)) == byte_count(a) + 2,
        0x800 <= (c as u32) < 0x1_0000 ==> byte_count(a.push(c)) == byte_count(a) + 3,
        0x1_0000 <= c as u32 ==> byte_count(a.push(c)) == byte_count(a) + 4,
        byte_count(Seq::<char>::empty()) == 0,
    decreases b.len(),
{
    assert(a.push(c).drop_last() =~= a);
    if b.len() == 0 {
        assert(a + b =~= a);
    } else {
        assert((a + b).drop_last() =~= a + b.drop_last());
        law_bytes_add_up(a, b.drop_last(), c);
    }
}

} // verus!
