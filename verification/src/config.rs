//! The static configuration: a comma-separated list of `domain:port` pairs.
//!
//! Each piece between commas is trimmed of white space. A piece that is then
//! empty is ignored. A piece without a colon, or whose text after the first
//! colon is not a port number, is skipped.

use vstd::prelude::*;

verus! {

/// One entry of the static configuration.
#[derive(Debug, PartialEq, Eq)]
pub struct StaticEntry {
    pub domain: String,
    pub port: u16,
}

/// A static entry as plain values.
pub struct EntryView {
    pub domain: Seq<char>,
    pub port: nat,
}

impl View for StaticEntry {
    type V = EntryView;

    open spec fn view(&self) -> EntryView {
        EntryView { domain: self.domain@, port: self.port as nat }
    }
}

/// The models of a vector of entries, in order.
pub open spec fn entry_views(entries: Seq<StaticEntry>) -> Seq<EntryView> {
    entries.map_values(|e: StaticEntry| e@)
}

/// White space, as Unicode defines it.
pub open spec fn is_space(c: char) -> bool {
    let u = c as u32;
    ||| 0x09 <= u <= 0x0D
    ||| u == 0x20
    ||| u == 0x85
    ||| u == 0xA0
    ||| u == 0x1680
    ||| 0x2000 <= u <= 0x200A
    ||| u == 0x2028
    ||| u == 0x2029
    ||| u == 0x202F
    ||| u == 0x205F
    ||| u == 0x3000
}

/// `s` without the white space at its start.
pub open spec fn trim_start(s: Seq<char>) -> Seq<char>
    decreases s.len(),
{
    if s.len() > 0 && is_space(s.first()) {
        trim_start(s.drop_first())
    } else {
        s
    }
}

/// `s` without the white space at its end.
pub open spec fn trim_end(s: Seq<char>) -> Seq<char>
    decreases s.len(),
{
    if s.len() > 0 && is_space(s.last()) {
        trim_end(s.drop_last())
    } else {
        s
    }
}

/// `s` without the white space at either end.
pub open spec fn trimmed(s: Seq<char>) -> Seq<char> {
    trim_end(trim_start(s))
}

/// The position of the first `c` in `s`; the length of `s` if there is none.
pub open spec fn first_index(s: Seq<char>, c: char) -> int
    decreases s.len(),
{
    if s.len() == 0 || s.first() == c {
        0
    } else {
        1 + first_index(s.drop_first(), c)
    }
}

/// A decimal digit.
pub open spec fn is_digit(c: char) -> bool {
    '0' <= c <= '9'
}

/// The number that a string of decimal digits writes.
pub open spec fn decimal_value(s: Seq<char>) -> nat
    decreases s.len(),
{
    if s.len() == 0 {
        0
    } else {
        decimal_value(s.drop_last()) * 10 + ((s.last() as u32 - 0x30) as nat)
    }
}

/// Every character of `s` is a decimal digit.
pub open spec fn all_digits(s: Seq<char>) -> bool {
    forall|i: int| 0 <= i < s.len() ==> is_digit(#[trigger] s[i])
}

/// `s` without the `+` that may stand in front.
pub open spec fn without_plus(s: Seq<char>) -> Seq<char> {
    if s.len() > 0 && s.first() == '+' {
        s.drop_first()
    } else {
        s
    }
}

/// The port that `s` writes: decimal digits, at least one, with at most one
/// `+` in front, and a value that fits in 16 bits.
pub open spec fn parse_port(s: Seq<char>) -> Option<nat> {
    let digits = without_plus(s);
    if digits.len() > 0 && all_digits(digits) && decimal_value(digits) <= 0xFFFF {
        Some(decimal_value(digits))
    } else {
        None
    }
}

/// The entry that one piece of the configuration writes, if it writes one:
/// after trimming, what stands before the first colon is the domain, what
/// stands after it the port.
pub open spec fn parse_entry(piece: Seq<char>) -> Option<EntryView> {
    let text = trimmed(piece);
    let colon = first_index(text, ':');
    if 0 <= colon < text.len() {
        match parse_port(text.skip(colon + 1)) {
            Some(port) => Some(EntryView { domain: text.take(colon), port }),
            None => None,
        }
    } else {
        None
    }
}

/// The entry of one piece as a sequence: one entry, or none.
pub open spec fn entry_of(piece: Seq<char>) -> Seq<EntryView> {
    match parse_entry(piece) {
        Some(entry) => seq![entry],
        None => Seq::empty(),
    }
}

/// The entries that a configuration text writes, in order: the text is cut at
/// each comma, and every piece that writes an entry gives one.
pub open spec fn parse_entries(text: Seq<char>) -> Seq<EntryView>
    decreases text.len(),
{
    let cut = first_index(text, ',');
    if 0 <= cut < text.len() {
        entry_of(text.take(cut)) + parse_entries(text.skip(cut + 1))
    } else {
        entry_of(text)
    }
}

/// Whether `c` is white space.
pub fn char_is_space(c: char) -> (space: bool)
    ensures
        space == is_space(c),
{
    let u: u32 = c as u32;
    (0x09 <= u && u <= 0x0D) || u == 0x20 || u == 0x85 || u == 0xA0 || u == 0x1680 || (0x2000 <= u
        && u <= 0x200A) || u == 0x2028 || u == 0x2029 || u == 0x202F || u == 0x205F || u == 0x3000
}

/// The position of the first `c` in `text[from..to]`, or `to`.
fn find_char(text: &str, from: usize, to: usize, c: char) -> (pos: usize)
    requires
        from <= to <= text@.len(),
    ensures
        from <= pos <= to,
        pos - from == first_index(text@.subrange(from as int, to as int), c),
{
    let mut i: usize = from;
    let mut found = false;
    while i < to && !found
        invariant
            from <= i <= to <= text@.len(),
            first_index(text@.subrange(from as int, to as int), c) == (i - from) + first_index(
                text@.subrange(i as int, to as int),
                c,
            ),
            found ==> i < to && text@[i as int] == c,
        decreases (to - i) + (if found { 0int } else { 1int }),
    {
        if text.get_char(i) == c {
            found = true;
        } else {
            proof {
                let rest = text@.subrange(i as int, to as int);
                assert(rest.first() == text@[i as int]);
                assert(rest.drop_first() == text@.subrange(i + 1, to as int));
            }
            i += 1;
        }
    }
    proof {
        let rest = text@.subrange(i as int, to as int);
        if found {
            assert(rest.first() == c);
        } else {
            assert(rest.len() == 0);
        }
    }
    i
}

/// Where `text[from..to]` starts and ends once trimmed.
fn trim_bounds(text: &str, from: usize, to: usize) -> (bounds: (usize, usize))
    requires
        from <= to <= text@.len(),
    ensures
        from <= bounds.0 <= bounds.1 <= to,
        text@.subrange(bounds.0 as int, bounds.1 as int) == trimmed(
            text@.subrange(from as int, to as int),
        ),
{
    let mut a: usize = from;
    let mut stop = false;
    while a < to && !stop
        invariant
            from <= a <= to <= text@.len(),
            trim_start(text@.subrange(from as int, to as int)) == trim_start(
                text@.subrange(a as int, to as int),
            ),
            stop ==> a < to && !is_space(text@[a as int]),
        decreases (to - a) + (if stop { 0int } else { 1int }),
    {
        if char_is_space(text.get_char(a)) {
            proof {
                let rest = text@.subrange(a as int, to as int);
                assert(rest.first() == text@[a as int]);
                assert(rest.drop_first() == text@.subrange(a + 1, to as int));
            }
            a += 1;
        } else {
            stop = true;
        }
    }
    proof {
        let rest = text@.subrange(a as int, to as int);
        if stop {
            assert(rest.first() == text@[a as int]);
        } else {
            assert(rest.len() == 0);
        }
        assert(trim_start(rest) == rest);
    }
    let mut b: usize = to;
    stop = false;
    while a < b && !stop
        invariant
            from <= a <= b <= to <= text@.len(),
            trim_end(text@.subrange(a as int, to as int)) == trim_end(
                text@.subrange(a as int, b as int),
            ),
            stop ==> a < b && !is_space(text@[b - 1]),
        decreases (b - a) + (if stop { 0int } else { 1int }),
    {
        if char_is_space(text.get_char(b - 1)) {
            proof {
                let rest = text@.subrange(a as int, b as int);
                assert(rest.last() == text@[b - 1]);
                assert(rest.drop_last() == text@.subrange(a as int, b - 1));
            }
            b -= 1;
        } else {
            stop = true;
        }
    }
    proof {
        let rest = text@.subrange(a as int, b as int);
        if stop {
            assert(rest.last() == text@[b - 1]);
        } else {
            assert(rest.len() == 0);
        }
        assert(trim_end(rest) == rest);
    }
    (a, b)
}

/// Reads `text[from..to]` as a port number.
fn read_port(text: &str, from: usize, to: usize) -> (port: Option<u16>)
    requires
        from <= to <= text@.len(),
    ensures
        match port {
            Some(p) => parse_port(text@.subrange(from as int, to as int)) == Some(p as nat),
            None => parse_port(text@.subrange(from as int, to as int)) is None,
        },
{
    let ghost whole = text@.subrange(from as int, to as int);
    let mut start: usize = from;
    if from < to && text.get_char(from) == '+' {
        start = from + 1;
    }
    let ghost digits = text@.subrange(start as int, to as int);
    proof {
        if from < to {
            assert(whole.first() == text@[from as int]);
            assert(whole.drop_first() == text@.subrange(from + 1, to as int));
        }
        assert(digits == without_plus(whole));
    }
    if start == to {
        return None;
    }
    let mut value: u32 = 0;
    let mut i: usize = start;
    while i < to
        invariant
            start <= i <= to <= text@.len(),
            from <= start,
            digits == text@.subrange(start as int, to as int),
            digits == without_plus(text@.subrange(from as int, to as int)),
            forall|j: int| 0 <= j < i - start ==> is_digit(#[trigger] digits[j]),
            value <= 0x10000,
            value as nat == if decimal_value(digits.take(i - start)) <= 0x10000 {
                decimal_value(digits.take(i - start))
            } else {
                0x10000
            },
        decreases to - i,
    {
        let c = text.get_char(i);
        if !('0' <= c && c <= '9') {
            proof {
                assert(digits[i - start] == c);
                assert(!is_digit(digits[i - start]));
            }
            return None;
        }
        let d: u32 = c as u32 - 0x30;
        proof {
            let next = digits.take(i - start + 1);
            assert(next.drop_last() == digits.take(i - start));
            assert(next.last() == c);
        }
        let wide: u32 = value * 10 + d;
        value = if wide > 0x10000 {
            0x10000
        } else {
            wide
        };
        i += 1;
    }
    proof {
        assert(digits.take(to - start) == digits);
    }
    if value > 0xFFFF {
        None
    } else {
        Some(value as u16)
    }
}

/// Reads the piece `text[from..to]` as an entry.
fn read_entry(text: &str, from: usize, to: usize) -> (entry: Option<StaticEntry>)
    requires
        from <= to <= text@.len(),
    ensures
        match entry {
            Some(e) => parse_entry(text@.subrange(from as int, to as int)) == Some(e@),
            None => parse_entry(text@.subrange(from as int, to as int)) is None,
        },
{
    let (a, b) = trim_bounds(text, from, to);
    let colon = find_char(text, a, b, ':');
    if colon >= b {
        return None;
    }
    proof {
        let body = text@.subrange(a as int, b as int);
        assert(body.skip(colon - a + 1) == text@.subrange(colon + 1, b as int));
        assert(body.take(colon - a) == text@.subrange(a as int, colon as int));
    }
    match read_port(text, colon + 1, b) {
        Some(port) => {
            let domain = text.substring_char(a, colon).to_owned();
            Some(StaticEntry { domain, port })
        },
        None => None,
    }
}

/// Reads the static configuration. Pieces that write no entry are passed
/// over; the entries come in the order in which they were written.
pub fn parse_static_entries(config: &str) -> (entries: Vec<StaticEntry>)
    ensures
        entry_views(entries@) == parse_entries(config@),
{
    let n = config.unicode_len();
    let mut entries: Vec<StaticEntry> = Vec::new();
    let mut pos: usize = 0;
    let mut done = false;
    proof {
        assert(config@.skip(0) == config@);
        assert(entry_views(entries@) + parse_entries(config@) == parse_entries(config@));
    }
    while !done
        invariant
            pos <= n == config@.len(),
            !done ==> parse_entries(config@) == entry_views(entries@) + parse_entries(
                config@.skip(pos as int),
            ),
            done ==> parse_entries(config@) == entry_views(entries@),
        decreases (n - pos) + (if done { 0int } else { 1int }),
    {
        let cut = find_char(config, pos, n, ',');
        let ghost rest = config@.skip(pos as int);
        let ghost before = entry_views(entries@);
        proof {
            assert(rest == config@.subrange(pos as int, n as int));
            if cut < n {
                assert(rest.take(cut - pos) == config@.subrange(pos as int, cut as int));
                assert(rest.skip(cut - pos + 1) == config@.skip(cut + 1));
            }
        }
        match read_entry(config, pos, cut) {
            Some(entry) => {
                proof {
                    assert(entry_views(entries@.push(entry)) == before + seq![entry@]);
                }
                entries.push(entry);
            },
            None => {
                proof {
                    assert(before + Seq::<EntryView>::empty() == before);
                }
            },
        }
        proof {
            let piece = if cut < n { rest.take(cut - pos) } else { rest };
            assert(entry_views(entries@) == before + entry_of(piece));
            if cut < n {
                let tail = parse_entries(config@.skip(cut + 1));
                assert(before + (entry_of(piece) + tail) == (before + entry_of(piece)) + tail);
            }
        }
        if cut >= n {
            done = true;
        } else {
            pos = cut + 1;
        }
    }
    entries
}

} // verus!
