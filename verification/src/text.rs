//! Strings: trimming, joining, decimal numerals, and the models behind them.
//!
//! The view of a `str` or `String` is its sequence of characters, and every
//! contract below speaks of that view.

use vstd::prelude::*;

verus! {

/// The characters with the Unicode property `White_Space`.
pub open spec fn is_white_space(c: char) -> bool {
    ||| '\u{9}' <= c <= '\u{d}'
    ||| c == ' '
    ||| c == '\u{85}'
    ||| c == '\u{a0}'
    ||| c == '\u{1680}'
    ||| '\u{2000}' <= c <= '\u{200a}'
    ||| c == '\u{2028}'
    ||| c == '\u{2029}'
    ||| c == '\u{202f}'
    ||| c == '\u{205f}'
    ||| c == '\u{3000}'
}

/// `s` without its leading white space.
pub open spec fn trimmed_start(s: Seq<char>) -> Seq<char>
    decreases s.len(),
{
    if s.len() > 0 && is_white_space(s[0]) {
        trimmed_start(s.skip(1))
    } else {
        s
    }
}

/// `s` without its trailing white space.
pub open spec fn trimmed_end(s: Seq<char>) -> Seq<char>
    decreases s.len(),
{
    if s.len() > 0 && is_white_space(s.last()) {
        trimmed_end(s.drop_last())
    } else {
        s
    }
}

/// `s` without white space at either end.
pub open spec fn trimmed(s: Seq<char>) -> Seq<char> {
    trimmed_end(trimmed_start(s))
}

/// `str::trim` removes the characters with the property `White_Space` from
/// both ends and keeps everything between them.
pub assume_specification[ str::trim ](s: &str) -> (r: &str)
    ensures
        r@ == trimmed(s@),
;

/// `s` without the run of `c` at its end.
pub open spec fn without_trailing(s: Seq<char>, c: char) -> Seq<char>
    decreases s.len(),
{
    if s.len() > 0 && s.last() == c {
        without_trailing(s.drop_last(), c)
    } else {
        s
    }
}

/// `str::trim_end_matches` with a character as its pattern removes that
/// character from the end for as long as the string ends in it.
#[verifier::external_body]
pub(crate) fn trim_end_char(s: &str, c: char) -> (r: &str)
    ensures
        r@ == without_trailing(s@, c),
{
    s.trim_end_matches(c)
}

/// `c` with an ASCII capital replaced by its small letter.
pub open spec fn ascii_lower(c: char) -> char {
    if 'A' <= c <= 'Z' {
        ((c as u32) + 32) as char
    } else {
        c
    }
}

/// `s` with every ASCII capital replaced by its small letter.
pub open spec fn ascii_lowered(s: Seq<char>) -> Seq<char> {
    s.map_values(|c: char| ascii_lower(c))
}

/// `str::to_ascii_lowercase` maps the letters `A` to `Z` to `a` to `z` and
/// keeps every other character.
pub assume_specification[ str::to_ascii_lowercase ](s: &str) -> (r: String)
    ensures
        r@ == ascii_lowered(s@),
;

/// `<str as PartialEq>::eq` holds of two strings with the same characters.
pub assume_specification[ <str as PartialEq>::eq ](a: &str, b: &str) -> (r: bool)
    ensures
        r == (a@ == b@),
;

/// The first `n` of `parts`, with `separator` between neighbours.
pub open spec fn joined_first(parts: Seq<Seq<char>>, separator: Seq<char>, n: nat) -> Seq<char>
    decreases n,
{
    if n == 0 {
        Seq::empty()
    } else if n == 1 {
        parts[0]
    } else {
        joined_first(parts, separator, (n - 1) as nat) + separator + parts[n - 1]
    }
}

/// All of `parts`, in order, with `separator` between neighbours.
pub open spec fn joined(parts: Seq<Seq<char>>, separator: Seq<char>) -> Seq<char> {
    joined_first(parts, separator, parts.len())
}

/// The views of the strings of a list.
pub open spec fn views(parts: Seq<String>) -> Seq<Seq<char>> {
    parts.map_values(|s: String| s@)
}

/// Joins `parts` with `separator` between neighbours.
pub fn join(parts: &Vec<String>, separator: &str) -> (r: String)
    ensures
        r@ == joined(views(parts@), separator@),
{
    let mut out = String::new();
    let mut i: usize = 0;
    while i < parts.len()
        invariant
            i <= parts@.len(),
            out@ == joined_first(views(parts@), separator@, i as nat),
        decreases parts.len() - i,
    {
        if i > 0 {
            out.append(separator);
        }
        out.append(parts[i].as_str());
        i += 1;
    }
    out
}

/// `a` followed by `b`.
pub fn appended(a: &str, b: &str) -> (r: String)
    ensures
        r@ == a@ + b@,
{
    let mut out = a.to_string();
    out.append(b);
    out
}

/// The decimal digit of a number below ten.
pub open spec fn digit(d: nat) -> char {
    (48 + d) as char
}

/// The decimal numeral of `n`, without leading zeros.
pub open spec fn decimal(n: nat) -> Seq<char>
    decreases n,
{
    if n < 10 {
        seq![digit(n)]
    } else {
        decimal(n / 10).push(digit(n % 10))
    }
}

/// Writes one decimal digit.
fn digit_str(d: u16) -> (r: &'static str)
    requires
        d < 10,
    ensures
        r@ == seq![digit(d as nat)],
{
    proof {
        reveal_strlit("0");
        reveal_strlit("1");
        reveal_strlit("2");
        reveal_strlit("3");
        reveal_strlit("4");
        reveal_strlit("5");
        reveal_strlit("6");
        reveal_strlit("7");
        reveal_strlit("8");
        reveal_strlit("9");
    }
    let r = match d {
        0 => "0",
        1 => "1",
        2 => "2",
        3 => "3",
        4 => "4",
        5 => "5",
        6 => "6",
        7 => "7",
        8 => "8",
        _ => "9",
    };
    assert(r@ =~= seq![digit(d as nat)]);
    r
}

/// Writes `n` in decimal.
pub fn decimal_string(n: u16) -> (r: String)
    ensures
        r@ == decimal(n as nat),
    decreases n,
{
    if n < 10 {
        digit_str(n).to_string()
    } else {
        let mut out = decimal_string(n / 10);
        out.append(digit_str(n % 10));
        assert(out@ =~= decimal((n / 10) as nat).push(digit((n % 10) as nat)));
        out
    }
}

/// What `trimmed_start` keeps is a suffix that does not begin with white space.
pub proof fn lemma_trimmed_start(s: Seq<char>)
    ensures
        trimmed_start(s).len() <= s.len(),
        trimmed_start(s) == s.skip(s.len() - trimmed_start(s).len()),
        trimmed_start(s).len() > 0 ==> !is_white_space(trimmed_start(s)[0]),
        forall|i: int| 0 <= i < s.len() - trimmed_start(s).len() ==> is_white_space(#[trigger] s[i]),
    decreases s.len(),
{
    if s.len() > 0 && is_white_space(s[0]) {
        lemma_trimmed_start(s.skip(1));
        let k = s.len() - trimmed_start(s).len();
        assert(s.skip(1).skip(k - 1) =~= s.skip(k));
        assert forall|i: int| 0 <= i < k implies is_white_space(#[trigger] s[i]) by {
            if i > 0 {
                assert(s.skip(1)[i - 1] == s[i]);
            }
        }
    } else {
        assert(s.skip(0) =~= s);
    }
}

/// What `trimmed_end` keeps is a prefix that does not end in white space.
pub proof fn lemma_trimmed_end(s: Seq<char>)
    ensures
        trimmed_end(s).len() <= s.len(),
        trimmed_end(s) == s.take(trimmed_end(s).len() as int),
        trimmed_end(s).len() > 0 ==> !is_white_space(trimmed_end(s).last()),
        forall|i: int| trimmed_end(s).len() <= i < s.len() ==> is_white_space(#[trigger] s[i]),
    decreases s.len(),
{
    if s.len() > 0 && is_white_space(s.last()) {
        lemma_trimmed_end(s.drop_last());
        let k = trimmed_end(s).len();
        assert(s.drop_last().take(k as int) =~= s.take(k as int));
        assert forall|i: int| k <= i < s.len() implies is_white_space(#[trigger] s[i]) by {
            if i < s.len() - 1 {
                assert(s.drop_last()[i] == s[i]);
            }
        }
    } else {
        assert(s.take(s.len() as int) =~= s);
    }
}

/// Trimming leaves a string that neither begins nor ends with white space, and
/// removes nothing but white space.
pub proof fn law_trimmed(s: Seq<char>)
    ensures
        trimmed(s).len() > 0 ==> !is_white_space(trimmed(s)[0]) && !is_white_space(
            trimmed(s).last(),
        ),
        exists|i: int, j: int|
            0 <= i <= j <= s.len() && trimmed(s) == #[trigger] s.subrange(i, j) && (forall|k: int|
                0 <= k < i || j <= k < s.len() ==> is_white_space(#[trigger] s[k])),
{
    let t = trimmed_start(s);
    lemma_trimmed_start(s);
    lemma_trimmed_end(t);
    let i = s.len() - t.len();
    let j = i + trimmed(s).len();
    assert(trimmed(s) =~= s.subrange(i, j));
    assert forall|k: int| 0 <= k < i || j <= k < s.len() implies is_white_space(
        #[trigger] s[k],
    ) by {
        if j <= k {
            assert(t[k - i] == s[k]);
        }
    }
}

/// Trimming a trimmed string changes nothing.
pub proof fn law_trim_is_idempotent(s: Seq<char>)
    ensures
        trimmed(trimmed(s)) == trimmed(s),
{
    law_trimmed(s);
}

/// A string that neither begins nor ends with white space is left as it is.
pub proof fn lemma_nothing_to_trim(s: Seq<char>)
    requires
        s.len() > 0 ==> !is_white_space(s[0]) && !is_white_space(s.last()),
    ensures
        trimmed(s) == s,
{
}

/// A string of white space alone trims to nothing, and no other string does.
pub proof fn law_blank_iff_trims_to_nothing(s: Seq<char>)
    ensures
        trimmed(s).len() == 0 <==> (forall|i: int|
            0 <= i < s.len() ==> is_white_space(#[trigger] s[i])),
{
    law_trimmed(s);
    let (i, j) = choose|i: int, j: int|
        0 <= i <= j <= s.len() && trimmed(s) == #[trigger] s.subrange(i, j) && (forall|k: int|
            0 <= k < i || j <= k < s.len() ==> is_white_space(#[trigger] s[k]));
    if trimmed(s).len() > 0 {
        assert(trimmed(s)[0] == s[i]);
    }
}

/// Lowering the ASCII capitals of a string a second time changes nothing.
pub proof fn law_ascii_lowered_is_idempotent(s: Seq<char>)
    ensures
        ascii_lowered(ascii_lowered(s)) == ascii_lowered(s),
{
    assert(ascii_lowered(ascii_lowered(s)) =~= ascii_lowered(s));
}

/// What `without_trailing` keeps does not end in `c`, and only `c` is removed.
pub proof fn law_without_trailing(s: Seq<char>, c: char)
    ensures
        without_trailing(s, c).len() <= s.len(),
        without_trailing(s, c) == s.take(without_trailing(s, c).len() as int),
        without_trailing(s, c).len() > 0 ==> without_trailing(s, c).last() != c,
        forall|i: int| without_trailing(s, c).len() <= i < s.len() ==> #[trigger] s[i] == c,
    decreases s.len(),
{
    if s.len() > 0 && s.last() == c {
        law_without_trailing(s.drop_last(), c);
        let k = without_trailing(s, c).len();
        assert(s.drop_last().take(k as int) =~= s.take(k as int));
        assert forall|i: int| k <= i < s.len() implies #[trigger] s[i] == c by {
            if i < s.len() - 1 {
                assert(s.drop_last()[i] == s[i]);
            }
        }
    } else {
        assert(s.take(s.len() as int) =~= s);
    }
}

/// Lowering keeps the number of characters, adds 32 to the code of the letters
/// `A` to `Z`, and keeps every other character.
pub proof fn law_ascii_lowered(s: Seq<char>)
    ensures
        ascii_lowered(s).len() == s.len(),
        forall|i: int|
            0 <= i < s.len() && 'A' <= s[i] <= 'Z' ==> #[trigger] ascii_lowered(s)[i] as int
                == s[i] as int + 32,
        forall|i: int|
            0 <= i < s.len() && !('A' <= s[i] <= 'Z') ==> #[trigger] ascii_lowered(s)[i] == s[i],
{
}

/// White space around a text that has none at its ends is removed, whole, and
/// the text is kept, whole.
pub proof fn law_surrounding_white_space_is_trimmed(
    before: Seq<char>,
    t: Seq<char>,
    after: Seq<char>,
)
    requires
        t.len() > 0,
        !is_white_space(t[0]),
        !is_white_space(t.last()),
        forall|i: int| 0 <= i < before.len() ==> is_white_space(#[trigger] before[i]),
        forall|i: int| 0 <= i < after.len() ==> is_white_space(#[trigger] after[i]),
    ensures
        trimmed(before + t + after) == t,
    decreases before.len() + after.len(),
{
    let s = before + t + after;
    if before.len() > 0 {
        assert(s[0] == before[0]);
        assert(s.skip(1) =~= before.skip(1) + t + after);
        law_surrounding_white_space_is_trimmed(before.skip(1), t, after);
    } else {
        assert(s[0] == t[0]);
        lemma_trailing_white_space_is_trimmed(t, after);
        assert(s =~= t + after);
    }
}

/// White space behind a text that does not end in any is removed.
proof fn lemma_trailing_white_space_is_trimmed(t: Seq<char>, after: Seq<char>)
    requires
        t.len() > 0,
        !is_white_space(t.last()),
        forall|i: int| 0 <= i < after.len() ==> is_white_space(#[trigger] after[i]),
    ensures
        trimmed_end(t + after) == t,
    decreases after.len(),
{
    if after.len() > 0 {
        assert((t + after).last() == after.last());
        assert((t + after).drop_last() =~= t + after.drop_last());
        lemma_trailing_white_space_is_trimmed(t, after.drop_last());
    } else {
        assert(t + after =~= t);
    }
}

/// What is joined of the first parts does not depend on a later one.
proof fn lemma_joined_first_of_prefix(
    parts: Seq<Seq<char>>,
    separator: Seq<char>,
    p: Seq<char>,
    n: nat,
)
    requires
        n <= parts.len(),
    ensures
        joined_first(parts.push(p), separator, n) == joined_first(parts, separator, n),
    decreases n,
{
    if n > 1 {
        lemma_joined_first_of_prefix(parts, separator, p, (n - 1) as nat);
    }
}

/// Nothing joins to nothing, one part to itself, and a part behind others to
/// theirs, the separator and itself.
pub proof fn law_joined(parts: Seq<Seq<char>>, separator: Seq<char>, p: Seq<char>)
    ensures
        joined(Seq::empty(), separator) == Seq::<char>::empty(),
        joined(seq![p], separator) == p,
        parts.len() > 0 ==> joined(parts.push(p), separator) == joined(parts, separator) + separator
            + p,
{
    lemma_joined_first_of_prefix(parts, separator, p, parts.len());
}

/// A joined text is as long as its parts together and a separator between each
/// two of them: nothing is lost and nothing is added.
pub proof fn law_joined_length(parts: Seq<Seq<char>>, separator: Seq<char>)
    requires
        parts.len() > 0,
    ensures
        joined(parts, separator).len() == parts.map_values(
            |p: Seq<char>| p.len() as int,
        ).fold_left(0int, |sum: int, n: int| sum + n) + separator.len() * (parts.len() - 1),
    decreases parts.len(),
{
    let length = |p: Seq<char>| p.len() as int;
    let plus = |sum: int, n: int| sum + n;
    let front = parts.drop_last();
    let p = parts.last();
    assert(parts =~= front.push(p));
    assert(parts.map_values(length).drop_last() =~= front.map_values(length));
    assert(parts.map_values(length).last() == p.len());
    law_joined(front, separator, p);
    if front.len() > 0 {
        law_joined_length(front, separator);
        let (n, k) = (separator.len() as int, front.len() as int);
        assert(n * (k - 1) + n == n * k) by (nonlinear_arith);
    } else {
        assert(parts =~= seq![p]);
        assert(front.map_values(length).fold_left(0int, plus) == 0);
        assert(separator.len() * 0 == 0);
    }
}

/// Every part stands in the joined text, whole.
pub proof fn law_every_part_is_joined(parts: Seq<Seq<char>>, separator: Seq<char>, k: int)
    requires
        0 <= k < parts.len(),
    ensures
        exists|i: int|
            0 <= i && i + parts[k].len() <= joined(parts, separator).len() && #[trigger] joined(
                parts,
                separator,
            ).subrange(i, i + parts[k].len()) == parts[k],
    decreases parts.len(),
{
    let front = parts.drop_last();
    let p = parts.last();
    let whole = joined(parts, separator);
    assert(parts =~= front.push(p));
    law_joined(front, separator, p);
    if front.len() == 0 {
        assert(parts =~= seq![p]);
        assert(whole.subrange(0, 0 + p.len() as int) =~= p);
    } else if k == parts.len() - 1 {
        let i = whole.len() - p.len();
        assert(whole.subrange(i, i + p.len()) =~= p);
    } else {
        law_every_part_is_joined(front, separator, k);
        let head = joined(front, separator);
        let i = choose|i: int|
            0 <= i && i + front[k].len() <= head.len() && #[trigger] head.subrange(
                i,
                i + front[k].len(),
            ) == front[k];
        assert(whole.subrange(i, i + parts[k].len()) =~= head.subrange(i, i + front[k].len()));
    }
}

/// A number below ten is written as the character that many places behind `0`,
/// and any other as the numeral of its tenth with the digit of the rest behind.
pub proof fn law_decimal(n: nat)
    ensures
        n < 10 ==> decimal(n).len() == 1 && decimal(n)[0] as int == '0' as int + n,
        n >= 10 ==> decimal(n) == decimal(n / 10) + decimal(n % 10),
{
    if n >= 10 {
        assert(decimal(n) =~= decimal(n / 10) + decimal(n % 10));
    }
}

/// A list of strings is known by the characters of each, whole and in order.
pub proof fn law_views(parts: Seq<String>)
    ensures
        views(parts).len() == parts.len(),
        forall|i: int| 0 <= i < parts.len() ==> #[trigger] views(parts)[i] == parts[i]@,
{
}

} // verus!
