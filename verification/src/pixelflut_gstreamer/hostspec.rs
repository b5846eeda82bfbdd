use crate::ascii::{decimal, law_decimal_reads_back};
use vstd::prelude::*;

verus! {

/// Whether `c` has the Unicode `White_Space` property (what `char::is_whitespace` tests).
pub open spec fn is_whitespace(c: char) -> bool {
    let v = c as u32;
    ||| 9 <= v <= 13
    ||| v == 32
    ||| v == 0x85
    ||| v == 0xa0
    ||| v == 0x1680
    ||| 0x2000 <= v <= 0x200a
    ||| v == 0x2028
    ||| v == 0x2029
    ||| v == 0x202f
    ||| v == 0x205f
    ||| v == 0x3000
}

/// `s` without its leading white space.
pub open spec fn trim_start(s: Seq<char>) -> Seq<char>
    decreases s.len(),
{
    if s.len() > 0 && is_whitespace(s[0]) {
        trim_start(s.subrange(1, s.len() as int))
    } else {
        s
    }
}

/// `s` without its trailing white space.
pub open spec fn trim_end(s: Seq<char>) -> Seq<char>
    decreases s.len(),
{
    if s.len() > 0 && is_whitespace(s[s.len() - 1]) {
        trim_end(s.subrange(0, s.len() - 1))
    } else {
        s
    }
}

/// `s` without leading and trailing white space (what `str::trim` returns).
pub open spec fn trim(s: Seq<char>) -> Seq<char> {
    trim_end(trim_start(s))
}

/// The pieces of `s` between commas (what `str::split(',')` yields): one more than there are
/// commas.
pub open spec fn split_commas(s: Seq<char>) -> Seq<Seq<char>>
    decreases s.len(),
{
    if s.len() == 0 {
        seq![Seq::empty()]
    } else {
        let prev = split_commas(s.subrange(0, s.len() - 1));
        let c = s[s.len() - 1];
        if c == ',' {
            prev.push(Seq::empty())
        } else {
            prev.update(prev.len() - 1, prev[prev.len() - 1].push(c))
        }
    }
}

/// Whether `c` is a Unicode decimal digit (general category `Nd`, as of Unicode 16.0): what
/// `\d` matches in a regular expression with Unicode support.
pub open spec fn is_decimal_digit(c: char) -> bool {
    let v = c as u32;
    ||| 0x30 <= v <= 0x39
    ||| 0x660 <= v <= 0x669
    ||| 0x6f0 <= v <= 0x6f9
    ||| 0x7c0 <= v <= 0x7c9
    ||| 0x966 <= v <= 0x96f
    ||| 0x9e6 <= v <= 0x9ef
    ||| 0xa66 <= v <= 0xa6f
    ||| 0xae6 <= v <= 0xaef
    ||| 0xb66 <= v <= 0xb6f
    ||| 0xbe6 <= v <= 0xbef
    ||| 0xc66 <= v <= 0xc6f
    ||| 0xce6 <= v <= 0xcef
    ||| 0xd66 <= v <= 0xd6f
    ||| 0xde6 <= v <= 0xdef
    ||| 0xe50 <= v <= 0xe59
    ||| 0xed0 <= v <= 0xed9
    ||| 0xf20 <= v <= 0xf29
    ||| 0x1040 <= v <= 0x1049
    ||| 0x1090 <= v <= 0x1099
    ||| 0x17e0 <= v <= 0x17e9
    ||| 0x1810 <= v <= 0x1819
    ||| 0x1946 <= v <= 0x194f
    ||| 0x19d0 <= v <= 0x19d9
    ||| 0x1a80 <= v <= 0x1a89
    ||| 0x1a90 <= v <= 0x1a99
    ||| 0x1b50 <= v <= 0x1b59
    ||| 0x1bb0 <= v <= 0x1bb9
    ||| 0x1c40 <= v <= 0x1c49
    ||| 0x1c50 <= v <= 0x1c59
    ||| 0xa620 <= v <= 0xa629
    ||| 0xa8d0 <= v <= 0xa8d9
    ||| 0xa900 <= v <= 0xa909
    ||| 0xa9d0 <= v <= 0xa9d9
    ||| 0xa9f0 <= v <= 0xa9f9
    ||| 0xaa50 <= v <= 0xaa59
    ||| 0xabf0 <= v <= 0xabf9
    ||| 0xff10 <= v <= 0xff19
    ||| 0x104a0 <= v <= 0x104a9
    ||| 0x10d30 <= v <= 0x10d39
    ||| 0x10d40 <= v <= 0x10d49
    ||| 0x11066 <= v <= 0x1106f
    ||| 0x110f0 <= v <= 0x110f9
    ||| 0x11136 <= v <= 0x1113f
    ||| 0x111d0 <= v <= 0x111d9
    ||| 0x112f0 <= v <= 0x112f9
    ||| 0x11450 <= v <= 0x11459
    ||| 0x114d0 <= v <= 0x114d9
    ||| 0x11650 <= v <= 0x11659
    ||| 0x116c0 <= v <= 0x116c9
    ||| 0x116d0 <= v <= 0x116e3
    ||| 0x11730 <= v <= 0x11739
    ||| 0x118e0 <= v <= 0x118e9
    ||| 0x11950 <= v <= 0x11959
    ||| 0x11bf0 <= v <= 0x11bf9
    ||| 0x11c50 <= v <= 0x11c59
    ||| 0x11d50 <= v <= 0x11d59
    ||| 0x11da0 <= v <= 0x11da9
    ||| 0x11f50 <= v <= 0x11f59
    ||| 0x16130 <= v <= 0x16139
    ||| 0x16a60 <= v <= 0x16a69
    ||| 0x16ac0 <= v <= 0x16ac9
    ||| 0x16b50 <= v <= 0x16b59
    ||| 0x16d70 <= v <= 0x16d79
    ||| 0x1ccf0 <= v <= 0x1ccf9
    ||| 0x1d7ce <= v <= 0x1d7ff
    ||| 0x1e140 <= v <= 0x1e149
    ||| 0x1e2f0 <= v <= 0x1e2f9
    ||| 0x1e4f0 <= v <= 0x1e4f9
    ||| 0x1e5f1 <= v <= 0x1e5fa
    ||| 0x1e950 <= v <= 0x1e959
    ||| 0x1fbf0 <= v <= 0x1fbf9
}

/// Whether every character of `d` is an ASCII digit.
pub open spec fn ascii_digits(d: Seq<char>) -> bool {
    forall|k: int| 0 <= k < d.len() ==> 48 <= #[trigger] (d[k] as u32) <= 57
}

/// The character classes of the host specification grammar.
pub enum CharClass {
    /// `[A-Za-z0-9.\-:\[\]]`: a host name or an IP address with its port.
    Host,
    /// `[^#/,]`: a source address or a network device.
    Via,
    /// `\d`: a multiplicity (any Unicode decimal digit, see `is_decimal_digit`).
    Digit,
}

pub open spec fn in_class(class: CharClass, c: char) -> bool {
    let v = c as u32;
    match class {
        CharClass::Host => {
            ||| 65 <= v <= 90
            ||| 97 <= v <= 122
            ||| 48 <= v <= 58
            ||| v == 45
            ||| v == 46
            ||| v == 91
            ||| v == 93
        },
        CharClass::Via => v != 35 && v != 47 && v != 44,
        CharClass::Digit => is_decimal_digit(c),
    }
}

/// The end of the longest run of characters of `class` in `e` that starts at `i`.
pub open spec fn run_end(e: Seq<char>, i: int, class: CharClass) -> int
    decreases e.len() - i,
{
    if 0 <= i < e.len() && in_class(class, e[i]) {
        run_end(e, i + 1, class)
    } else {
        i
    }
}

/// The first position from `i` on of a host character in `e`, `e.len()` if there is none.
pub open spec fn first_host_char(e: Seq<char>, i: int) -> int
    decreases e.len() - i,
{
    if i >= e.len() {
        e.len() as int
    } else if in_class(CharClass::Host, e[i]) {
        i
    } else {
        first_host_char(e, i + 1)
    }
}

/// The value of a string of decimal digits.
pub open spec fn digits_value(d: Seq<char>) -> nat
    decreases d.len(),
{
    if d.len() == 0 {
        0
    } else {
        10 * digits_value(d.subrange(0, d.len() - 1)) + ((d[d.len() - 1] as u32) - 48) as nat
    }
}

/// How a connection is made, as text.
pub enum ViaSpec {
    Any,
    ViaIP(Seq<char>),
    ViaDevice(Seq<char>),
}

/// One entry of a host list:
/// `<host>(@<source address>|/<network device>)?(#<multiplicity>)?`, matched as the leftmost
/// match of that pattern in `e` (the host is the first run of host characters; text after the
/// match is ignored). `None` when `e` holds no host character, or when the digits after `#` are
/// not all ASCII digits (the pattern's `\d` takes any decimal digit, `str::parse` only ASCII
/// ones) or their value does not fit in a `usize`; the multiplicity is 1 when none is given.
pub open spec fn parse_entry(e: Seq<char>) -> Option<(Seq<char>, nat, ViaSpec)> {
    let h0 = first_host_char(e, 0);
    if h0 >= e.len() {
        None
    } else {
        let h1 = run_end(e, h0, CharClass::Host);
        let host = e.subrange(h0, h1);
        let has_via = h1 + 1 < e.len() && in_class(CharClass::Via, e[h1 + 1]);
        let via_ip = has_via && e[h1] == '@';
        let via_dev = has_via && e[h1] == '/';
        let v1 = if via_ip || via_dev {
            run_end(e, h1 + 1, CharClass::Via)
        } else {
            h1
        };
        let via = if via_ip {
            ViaSpec::ViaIP(e.subrange(h1 + 1, v1))
        } else if via_dev {
            ViaSpec::ViaDevice(e.subrange(h1 + 1, v1))
        } else {
            ViaSpec::Any
        };
        if v1 + 1 < e.len() && e[v1] == '#' && in_class(CharClass::Digit, e[v1 + 1]) {
            let d = e.subrange(v1 + 1, run_end(e, v1 + 1, CharClass::Digit));
            if ascii_digits(d) && digits_value(d) <= usize::MAX {
                Some((host, digits_value(d), via))
            } else {
                None
            }
        } else {
            Some((host, 1, via))
        }
    }
}

/// The entries of a list, each trimmed and parsed; `None` if one of them does not parse.
pub open spec fn parse_entries(entries: Seq<Seq<char>>) -> Option<Seq<(Seq<char>, nat, ViaSpec)>>
    decreases entries.len(),
{
    if entries.len() == 0 {
        Some(Seq::empty())
    } else {
        match (
            parse_entries(entries.subrange(0, entries.len() - 1)),
            parse_entry(trim(entries[entries.len() - 1])),
        ) {
            (Some(prev), Some(t)) => Some(prev.push(t)),
            _ => None,
        }
    }
}

/// A comma-separated host list: no entry for the empty string, `None` for a string of white
/// space only, otherwise one entry per comma-separated part (see `parse_entry`).
pub open spec fn parse_host_list(s: Seq<char>) -> Option<Seq<(Seq<char>, nat, ViaSpec)>> {
    if s.len() == 0 {
        Some(Seq::empty())
    } else if trim(s).len() == 0 {
        None
    } else {
        parse_entries(split_commas(s))
    }
}

/// Number of commas in `s`.
pub open spec fn comma_count(s: Seq<char>) -> nat
    decreases s.len(),
{
    if s.len() == 0 {
        0
    } else {
        comma_count(s.subrange(0, s.len() - 1)) + if s[s.len() - 1] == ',' {
            1nat
        } else {
            0nat
        }
    }
}

proof fn lemma_split_commas_len(s: Seq<char>)
    ensures
        split_commas(s).len() == comma_count(s) + 1,
    decreases s.len(),
{
    if s.len() > 0 {
        lemma_split_commas_len(s.subrange(0, s.len() - 1));
    }
}

proof fn lemma_parse_entries_len(entries: Seq<Seq<char>>)
    ensures
        parse_entries(entries) matches Some(v) ==> v.len() == entries.len(),
    decreases entries.len(),
{
    if entries.len() > 0 {
        lemma_parse_entries_len(entries.subrange(0, entries.len() - 1));
    }
}

/// A host list that parses gives one connection tuple per comma-separated entry: one more
/// than it has commas (none for the empty list).
pub proof fn law_one_tuple_per_entry(s: Seq<char>)
    ensures
        parse_host_list(s) matches Some(v) ==> v.len() == if s.len() == 0 {
            0
        } else {
            comma_count(s) + 1
        },
{
    if s.len() > 0 {
        lemma_split_commas_len(s);
        lemma_parse_entries_len(split_commas(s));
    }
}

/// Space, tab, line feed, carriage return and the other ASCII and Unicode spaces are white
/// space; no host character is.
pub proof fn law_white_space(c: char)
    ensures
        c == ' ' || c == '\t' || c == '\n' || c == '\r' || c == '\u{b}' || c == '\u{c}'
            || c == '\u{a0}' || c == '\u{3000}' ==> is_whitespace(c),
        is_host_text_char(c) ==> !is_whitespace(c),
        c == ',' || c == '#' || c == '@' || c == '/' ==> !is_whitespace(c),
{
}

/// Whether `c` is an ASCII letter or digit, `.`, `-`, `:`, `[` or `]`.
pub open spec fn is_host_text_char(c: char) -> bool {
    ||| 'a' <= c <= 'z'
    ||| 'A' <= c <= 'Z'
    ||| '0' <= c <= '9'
    ||| c == '.'
    ||| c == '-'
    ||| c == ':'
    ||| c == '['
    ||| c == ']'
}

/// The host characters are exactly the ASCII letters and digits, `.`, `-`, `:`, `[` and
/// `]`; a source address or device runs over every character but `#`, `/` and `,`; the
/// ASCII digits are multiplicity digits.
pub proof fn law_character_classes(c: char)
    ensures
        in_class(CharClass::Host, c) <==> is_host_text_char(c),
        in_class(CharClass::Via, c) <==> (c != '#' && c != '/' && c != ','),
        '0' <= c <= '9' ==> in_class(CharClass::Digit, c),
{
}

/// An entry made only of host characters is a host on its own: the whole entry is the host,
/// with one connection from any local address.
pub proof fn law_plain_host_entry(e: Seq<char>)
    requires
        e.len() > 0,
        forall|i: int| 0 <= i < e.len() ==> is_host_text_char(#[trigger] e[i]),
    ensures
        parse_entry(e) == Some((e, 1nat, ViaSpec::Any)),
{
    lemma_host_run(e, 0);
    assert(e.subrange(0, e.len() as int) =~= e);
}

/// A host list that is one such host parses to that host alone.
pub proof fn law_plain_host_list(s: Seq<char>)
    requires
        s.len() > 0,
        forall|i: int| 0 <= i < s.len() ==> is_host_text_char(#[trigger] s[i]),
    ensures
        parse_host_list(s) == Some(seq![(s, 1nat, ViaSpec::Any)]),
{
    law_plain_host_entry(s);
    assert(trim_start(s) == s);
    assert(trim_end(s) == s);
    assert(trim(s).len() > 0);
    lemma_no_comma_split(s);
    let entries = split_commas(s);
    assert(entries.subrange(0, 0) =~= Seq::<Seq<char>>::empty());
    assert(entries.len() == 1 && entries[0] == s);
    assert(trim(entries[0]) == s);
    assert(parse_entries(entries.subrange(0, 0)) == Some(Seq::<(Seq<char>, nat, ViaSpec)>::empty()));
    assert(parse_entries(entries) == Some(Seq::<(Seq<char>, nat, ViaSpec)>::empty().push(
        (s, 1nat, ViaSpec::Any),
    )));
    assert(Seq::<(Seq<char>, nat, ViaSpec)>::empty().push((s, 1nat, ViaSpec::Any)) =~= seq![
        (s, 1nat, ViaSpec::Any),
    ]);
}

/// The characters of the decimal text of `m`.
pub open spec fn decimal_chars(m: nat) -> Seq<char> {
    decimal(m).map_values(|b: u8| b as char)
}

/// An entry `<host>#<m>`, `m` written in decimal, asks for `m` connections to the host (when
/// `m` fits in a `usize`).
pub proof fn law_host_with_multiplicity(h: Seq<char>, m: nat)
    requires
        h.len() > 0,
        forall|i: int| 0 <= i < h.len() ==> is_host_text_char(#[trigger] h[i]),
        m <= usize::MAX,
    ensures
        parse_entry(h + seq!['#'] + decimal_chars(m)) == Some((h, m, ViaSpec::Any)),
{
    let d = decimal_chars(m);
    let e = h + seq!['#'] + d;
    law_decimal_reads_back(m);
    assert forall|k: int| 0 <= k < d.len() implies 48 <= #[trigger] (d[k] as u32) <= 57 by {
        assert(d[k] == decimal(m)[k] as char);
    }
    assert(e.subrange(0, h.len() as int) =~= h);
    lemma_host_prefix_run(h, e, 0);
    lemma_ascii_digit_run(e, h.len() + 1int);
    assert(e.subrange(h.len() + 1int, e.len() as int) =~= d);
    lemma_digits_value_of_decimal(m);
}

/// An entry `<host>@<source>` or `<host>/<device>`, where the source or device is not empty
/// and holds no `#`, `/` or `,`, connects once to the host through that source address or
/// device.
pub proof fn law_host_with_via(h: Seq<char>, sep: char, v: Seq<char>)
    requires
        h.len() > 0,
        forall|i: int| 0 <= i < h.len() ==> is_host_text_char(#[trigger] h[i]),
        sep == '@' || sep == '/',
        v.len() > 0,
        forall|i: int| 0 <= i < v.len() ==> #[trigger] v[i] != '#' && v[i] != '/' && v[i] != ',',
    ensures
        parse_entry(h + seq![sep] + v) == Some(
            (h, 1nat, if sep == '@' {
                ViaSpec::ViaIP(v)
            } else {
                ViaSpec::ViaDevice(v)
            }),
        ),
{
    let e = h + seq![sep] + v;
    assert(e.subrange(0, h.len() as int) =~= h);
    lemma_host_prefix_run(h, e, 0);
    lemma_via_run(e, h.len() + 1int);
    assert(e[h.len() + 1int] == v[0]);
    assert(e.subrange(0, h.len() as int) =~= h);
    assert(e.subrange(h.len() + 1int, e.len() as int) =~= v);
}

/// The value of the decimal text of `m`, read as characters, is `m`.
proof fn lemma_digits_value_of_decimal(m: nat)
    ensures
        digits_value(decimal_chars(m)) == m,
    decreases m,
{
    let d = decimal_chars(m);
    if m >= 10 {
        lemma_digits_value_of_decimal(m / 10);
        assert(d.subrange(0, d.len() - 1) =~= decimal_chars(m / 10));
        assert(decimal(m).last() == 48 + m % 10);
        assert(d[d.len() - 1] == decimal(m).last() as char);
        assert((d[d.len() - 1] as u32) == 48 + m % 10);
        assert(digits_value(d) == 10 * digits_value(d.subrange(0, d.len() - 1)) + ((d[d.len() - 1] as u32) - 48) as nat);
    } else {
        assert(d.subrange(0, 0) =~= Seq::<char>::empty());
        assert(d[0] == decimal(m)[0] as char);
        assert((d[0] as u32) == 48 + m);
        assert(digits_value(d) == 10 * digits_value(d.subrange(0, 0)) + ((d[0] as u32) - 48) as nat);
    }
}

/// In `e`, whose first `h.len()` characters are the host characters `h` and whose next one is
/// not a host character, the host run from `i` ends at `h.len()`.
proof fn lemma_host_prefix_run(h: Seq<char>, e: Seq<char>, i: int)
    requires
        0 <= i <= h.len() < e.len(),
        e.subrange(0, h.len() as int) == h,
        forall|k: int| 0 <= k < h.len() ==> is_host_text_char(#[trigger] h[k]),
        !is_host_text_char(e[h.len() as int]),
    ensures
        run_end(e, i, CharClass::Host) == h.len(),
        i == 0 ==> first_host_char(e, 0) == 0 || h.len() == 0,
    decreases h.len() - i,
{
    law_character_classes(e[h.len() as int]);
    if i < h.len() {
        assert(e[i] == h[i]);
        assert(is_host_text_char(h[i]));
        law_character_classes(e[i]);
        lemma_host_prefix_run(h, e, i + 1);
    }
}

/// A run of ASCII digits up to the end of `e` is one run of multiplicity digits.
proof fn lemma_ascii_digit_run(e: Seq<char>, i: int)
    requires
        0 <= i <= e.len(),
        forall|k: int| i <= k < e.len() ==> 48 <= #[trigger] (e[k] as u32) <= 57,
    ensures
        run_end(e, i, CharClass::Digit) == e.len(),
    decreases e.len() - i,
{
    if i < e.len() {
        assert(48 <= (e[i] as u32) <= 57);
        lemma_ascii_digit_run(e, i + 1);
    }
}

/// A run of characters other than `#`, `/` and `,` up to the end of `e` is one source address
/// or device.
proof fn lemma_via_run(e: Seq<char>, i: int)
    requires
        0 <= i <= e.len(),
        forall|k: int| i <= k < e.len() ==> #[trigger] e[k] != '#' && e[k] != '/' && e[k] != ',',
    ensures
        run_end(e, i, CharClass::Via) == e.len(),
    decreases e.len() - i,
{
    if i < e.len() {
        assert(e[i] != '#' && e[i] != '/' && e[i] != ',');
        law_character_classes(e[i]);
        lemma_via_run(e, i + 1);
    }
}

/// From `i` on, a string of host characters is one run of them.
proof fn lemma_host_run(e: Seq<char>, i: int)
    requires
        0 <= i <= e.len(),
        forall|k: int| 0 <= k < e.len() ==> is_host_text_char(#[trigger] e[k]),
    ensures
        run_end(e, i, CharClass::Host) == e.len(),
    decreases e.len() - i,
{
    if i < e.len() {
        assert(is_host_text_char(e[i]));
        lemma_host_run(e, i + 1);
    }
}

/// A string without commas is one piece.
proof fn lemma_no_comma_split(s: Seq<char>)
    requires
        forall|i: int| 0 <= i < s.len() ==> is_host_text_char(#[trigger] s[i]),
    ensures
        split_commas(s) == seq![s],
    decreases s.len(),
{
    if s.len() > 0 {
        let t = s.subrange(0, s.len() - 1);
        assert forall|i: int| 0 <= i < t.len() implies is_host_text_char(#[trigger] t[i]) by {
            assert(t[i] == s[i]);
        }
        lemma_no_comma_split(t);
        assert(is_host_text_char(s[s.len() - 1]));
        assert(t.push(s[s.len() - 1]) =~= s);
        assert(split_commas(s) =~= seq![s]);
    } else {
        assert(s =~= Seq::<char>::empty());
    }
}

/// The characters of `s`.
pub fn chars_of(s: &str) -> (r: Vec<char>)
    ensures
        r@ == s@,
{
    broadcast use vstd::string::axiom_spec_iter;

    let mut r: Vec<char> = Vec::new();
    for c in it: s.chars()
        invariant
            r@ == it.seq().take(it.index() as int),
            it.seq() == s@,
    {
        r.push(c);
    }
    r
}

/// `String::from_iter` over a slice of characters: the string of those characters.
#[verifier::external_body]
pub(crate) fn string_from_chars(chars: &[char]) -> (r: String)
    ensures
        r@ == chars@,
{
    chars.iter().collect()
}

/// Whether `c` is white space (`char::is_whitespace`).
pub fn char_is_whitespace(c: char) -> (r: bool)
    ensures
        r == is_whitespace(c),
{
    let v = c as u32;
    (9 <= v && v <= 13) || v == 32 || v == 0x85 || v == 0xa0 || v == 0x1680 || (0x2000 <= v && v
        <= 0x200a) || v == 0x2028 || v == 0x2029 || v == 0x202f || v == 0x205f || v == 0x3000
}

/// Whether `c` is a Unicode decimal digit (see `is_decimal_digit`).
pub fn char_is_decimal_digit(c: char) -> (r: bool)
    ensures
        r == is_decimal_digit(c),
{
    let v = c as u32;
    (0x30 <= v && v <= 0x39) || (0x660 <= v && v <= 0x669) || (0x6f0 <= v && v <= 0x6f9) ||
        (0x7c0 <= v && v <= 0x7c9) || (0x966 <= v && v <= 0x96f) ||
        (0x9e6 <= v && v <= 0x9ef) || (0xa66 <= v && v <= 0xa6f) ||
        (0xae6 <= v && v <= 0xaef) || (0xb66 <= v && v <= 0xb6f) ||
        (0xbe6 <= v && v <= 0xbef) || (0xc66 <= v && v <= 0xc6f) ||
        (0xce6 <= v && v <= 0xcef) || (0xd66 <= v && v <= 0xd6f) ||
        (0xde6 <= v && v <= 0xdef) || (0xe50 <= v && v <= 0xe59) ||
        (0xed0 <= v && v <= 0xed9) || (0xf20 <= v && v <= 0xf29) ||
        (0x1040 <= v && v <= 0x1049) || (0x1090 <= v && v <= 0x1099) ||
        (0x17e0 <= v && v <= 0x17e9) || (0x1810 <= v && v <= 0x1819) ||
        (0x1946 <= v && v <= 0x194f) || (0x19d0 <= v && v <= 0x19d9) ||
        (0x1a80 <= v && v <= 0x1a89) || (0x1a90 <= v && v <= 0x1a99) ||
        (0x1b50 <= v && v <= 0x1b59) || (0x1bb0 <= v && v <= 0x1bb9) ||
        (0x1c40 <= v && v <= 0x1c49) || (0x1c50 <= v && v <= 0x1c59) ||
        (0xa620 <= v && v <= 0xa629) || (0xa8d0 <= v && v <= 0xa8d9) ||
        (0xa900 <= v && v <= 0xa909) || (0xa9d0 <= v && v <= 0xa9d9) ||
        (0xa9f0 <= v && v <= 0xa9f9) || (0xaa50 <= v && v <= 0xaa59) ||
        (0xabf0 <= v && v <= 0xabf9) || (0xff10 <= v && v <= 0xff19) ||
        (0x104a0 <= v && v <= 0x104a9) || (0x10d30 <= v && v <= 0x10d39) ||
        (0x10d40 <= v && v <= 0x10d49) || (0x11066 <= v && v <= 0x1106f) ||
        (0x110f0 <= v && v <= 0x110f9) || (0x11136 <= v && v <= 0x1113f) ||
        (0x111d0 <= v && v <= 0x111d9) || (0x112f0 <= v && v <= 0x112f9) ||
        (0x11450 <= v && v <= 0x11459) || (0x114d0 <= v && v <= 0x114d9) ||
        (0x11650 <= v && v <= 0x11659) || (0x116c0 <= v && v <= 0x116c9) ||
        (0x116d0 <= v && v <= 0x116e3) || (0x11730 <= v && v <= 0x11739) ||
        (0x118e0 <= v && v <= 0x118e9) || (0x11950 <= v && v <= 0x11959) ||
        (0x11bf0 <= v && v <= 0x11bf9) || (0x11c50 <= v && v <= 0x11c59) ||
        (0x11d50 <= v && v <= 0x11d59) || (0x11da0 <= v && v <= 0x11da9) ||
        (0x11f50 <= v && v <= 0x11f59) || (0x16130 <= v && v <= 0x16139) ||
        (0x16a60 <= v && v <= 0x16a69) || (0x16ac0 <= v && v <= 0x16ac9) ||
        (0x16b50 <= v && v <= 0x16b59) || (0x16d70 <= v && v <= 0x16d79) ||
        (0x1ccf0 <= v && v <= 0x1ccf9) || (0x1d7ce <= v && v <= 0x1d7ff) ||
        (0x1e140 <= v && v <= 0x1e149) || (0x1e2f0 <= v && v <= 0x1e2f9) ||
        (0x1e4f0 <= v && v <= 0x1e4f9) || (0x1e5f1 <= v && v <= 0x1e5fa) ||
        (0x1e950 <= v && v <= 0x1e959) || (0x1fbf0 <= v && v <= 0x1fbf9)
}

/// Whether `c` belongs to `class`.
pub fn char_in_class(class: &CharClass, c: char) -> (r: bool)
    ensures
        r == in_class(*class, c),
{
    let v = c as u32;
    match class {
        CharClass::Host => (65 <= v && v <= 90) || (97 <= v && v <= 122) || (48 <= v && v <= 58)
            || v == 45 || v == 46 || v == 91 || v == 93,
        CharClass::Via => v != 35 && v != 47 && v != 44,
        CharClass::Digit => char_is_decimal_digit(c),
    }
}

/// The bounds of `chars[a..b]` without its leading and trailing white space.
pub fn trim_bounds(chars: &Vec<char>, a: usize, b: usize) -> (r: (usize, usize))
    requires
        a <= b <= chars@.len(),
    ensures
        a <= r.0 <= r.1 <= b,
        chars@.subrange(r.0 as int, r.1 as int) == trim(chars@.subrange(a as int, b as int)),
{
    let mut start = a;
    while start < b && char_is_whitespace(chars[start])
        invariant
            a <= start <= b <= chars@.len(),
            trim_start(chars@.subrange(start as int, b as int)) == trim_start(
                chars@.subrange(a as int, b as int),
            ),
        decreases b - start,
    {
        assert(chars@.subrange(start as int, b as int).subrange(1, (b - start) as int)
            =~= chars@.subrange(start + 1, b as int));
        start = start + 1;
    }
    let mut end = b;
    while end > start && char_is_whitespace(chars[end - 1])
        invariant
            a <= start <= end <= b <= chars@.len(),
            trim_start(chars@.subrange(start as int, b as int)) == chars@.subrange(
                start as int,
                b as int,
            ),
            trim_end(chars@.subrange(start as int, end as int)) == trim_end(
                chars@.subrange(start as int, b as int),
            ),
        decreases end - start,
    {
        assert(chars@.subrange(start as int, end as int).subrange(0, (end - start - 1) as int)
            =~= chars@.subrange(start as int, end - 1));
        end = end - 1;
    }
    (start, end)
}

/// The end of the run of characters of `class` in `e` that starts at `i` (see `run_end`).
pub fn scan_run(e: &Vec<char>, i: usize, class: &CharClass) -> (j: usize)
    requires
        i <= e@.len(),
    ensures
        j == run_end(e@, i as int, *class),
        i <= j <= e@.len(),
        forall|k: int| i <= k < j ==> in_class(*class, #[trigger] e@[k]),
{
    let mut j = i;
    while j < e.len() && char_in_class(class, e[j])
        invariant
            i <= j <= e@.len(),
            run_end(e@, j as int, *class) == run_end(e@, i as int, *class),
            forall|k: int| i <= k < j ==> in_class(*class, #[trigger] e@[k]),
        decreases e@.len() - j,
    {
        j = j + 1;
    }
    j
}

/// The first position of a host character in `e` (see `first_host_char`).
pub fn find_host_char(e: &Vec<char>) -> (i: usize)
    ensures
        i == first_host_char(e@, 0),
        i <= e@.len(),
{
    let mut i: usize = 0;
    while i < e.len() && !char_in_class(&CharClass::Host, e[i])
        invariant
            i <= e@.len(),
            first_host_char(e@, i as int) == first_host_char(e@, 0),
        decreases e@.len() - i,
    {
        i = i + 1;
    }
    i
}

/// What `str::parse::<usize>` gives for the non-empty string of decimal digits `e[a..b]`: its
/// value when all of them are ASCII digits and the value fits in a `usize`, `None` otherwise.
pub fn parse_digits(e: &Vec<char>, a: usize, b: usize) -> (r: Option<usize>)
    requires
        a <= b <= e@.len(),
        forall|k: int| a <= k < b ==> in_class(CharClass::Digit, #[trigger] e@[k]),
    ensures
        r == (if ascii_digits(e@.subrange(a as int, b as int)) && digits_value(
            e@.subrange(a as int, b as int),
        ) <= usize::MAX {
            Some(digits_value(e@.subrange(a as int, b as int)) as usize)
        } else {
            None::<usize>
        }),
{
    let ghost whole = e@.subrange(a as int, b as int);
    let mut value: usize = 0;
    let mut i = a;
    while i < b
        invariant
            a <= i <= b <= e@.len(),
            whole == e@.subrange(a as int, b as int),
            ascii_digits(e@.subrange(a as int, i as int)),
            value == digits_value(e@.subrange(a as int, i as int)),
        decreases b - i,
    {
        let ghost prefix = e@.subrange(a as int, i as int);
        let ghost next = e@.subrange(a as int, i + 1);
        assert(next.subrange(0, next.len() - 1) =~= prefix);
        assert(whole.subrange(0, (i + 1 - a) as int) =~= next);
        let c = e[i] as u32;
        if c < 48 || c > 57 {
            assert(!(48 <= (whole[(i - a) as int] as u32) <= 57));
            return None;
        }
        let digit = (c - 48) as usize;
        match value.checked_mul(10) {
            None => {
                proof {
                    lemma_digits_value_grows(whole, (i + 1 - a) as nat);
                }
                return None;
            },
            Some(v) => match v.checked_add(digit) {
                None => {
                    proof {
                        lemma_digits_value_grows(whole, (i + 1 - a) as nat);
                    }
                    return None;
                },
                Some(w) => {
                    value = w;
                },
            },
        }
        i = i + 1;
        assert(ascii_digits(e@.subrange(a as int, i as int))) by {
            assert forall|k: int| 0 <= k < next.len() implies 48 <= #[trigger] (next[k] as u32)
                <= 57 by {
                if k < prefix.len() {
                    assert(next[k] == prefix[k]);
                }
            }
        }
    }
    assert(e@.subrange(a as int, i as int) =~= whole);
    Some(value)
}

/// A prefix of a digit string has at most the value of the whole string.
proof fn lemma_digits_value_grows(d: Seq<char>, n: nat)
    requires
        n <= d.len(),
    ensures
        digits_value(d.subrange(0, n as int)) <= digits_value(d),
    decreases d.len() - n,
{
    if n < d.len() {
        let shorter = d.subrange(0, d.len() - 1);
        lemma_digits_value_grows(shorter, n);
        assert(shorter.subrange(0, n as int) =~= d.subrange(0, n as int));
        assert(d.subrange(0, d.len() as int) =~= d);
    } else {
        assert(d.subrange(0, n as int) =~= d);
    }
}

} // verus!
