//! Characters and strings: what the rest of the library reads out of operator
//! input and writes into the lines it shows.

use vstd::prelude::*;

verus! {

/// Whether `c` has the Unicode property `White_Space`.
pub open spec fn is_white_space(c: char) -> bool {
    let code = c as u32;
    ||| 0x09 <= code <= 0x0D
    ||| code == 0x20
    ||| code == 0x85
    ||| code == 0xA0
    ||| code == 0x1680
    ||| 0x2000 <= code <= 0x200A
    ||| code == 0x2028
    ||| code == 0x2029
    ||| code == 0x202F
    ||| code == 0x205F
    ||| code == 0x3000
}

/// Tells whether `c` is white space.
pub fn is_whitespace(c: char) -> (white: bool)
    ensures
        white == is_white_space(c),
{
    let code: u32 = c as u32;
    (0x09 <= code && code <= 0x0D) || code == 0x20 || code == 0x85 || code == 0xA0 || code
        == 0x1680 || (0x2000 <= code && code <= 0x200A) || code == 0x2028 || code == 0x2029
        || code == 0x202F || code == 0x205F || code == 0x3000
}

/// The characters of `s`, in order.
pub fn chars_of(s: &str) -> (chars: Vec<char>)
    ensures
        chars@ == s@,
{
    let mut chars: Vec<char> = Vec::new();
    for c in it: s.chars()
        invariant
            it.seq() == s@,
            chars@ == it.seq().take(it.index()),
    {
        chars.push(c);
    }
    assert(chars@ == s@.take(s@.len() as int));
    chars
}

/// `s` without the white space at its front.
pub open spec fn trim_start_spec(s: Seq<char>) -> Seq<char>
    decreases s.len(),
{
    if s.len() > 0 && is_white_space(s.first()) {
        trim_start_spec(s.drop_first())
    } else {
        s
    }
}

/// `s` without the white space at its back.
pub open spec fn trim_end_spec(s: Seq<char>) -> Seq<char>
    decreases s.len(),
{
    if s.len() > 0 && is_white_space(s.last()) {
        trim_end_spec(s.drop_last())
    } else {
        s
    }
}

/// `s` without the white space at either end.
pub open spec fn trimmed(s: Seq<char>) -> Seq<char> {
    trim_end_spec(trim_start_spec(s))
}

/// Finds where the part `from..to` of `chars` begins and ends once the white
/// space at both of its ends is left out.
pub fn trim_bounds(chars: &Vec<char>, from: usize, to: usize) -> (bounds: (usize, usize))
    requires
        from <= to <= chars.len(),
    ensures
        from <= bounds.0 <= bounds.1 <= to,
        chars@.subrange(bounds.0 as int, bounds.1 as int) == trimmed(
            chars@.subrange(from as int, to as int),
        ),
        forall|i: int| from <= i < bounds.0 ==> is_white_space(#[trigger] chars@[i]),
        forall|i: int| bounds.1 <= i < to ==> is_white_space(#[trigger] chars@[i]),
        bounds.0 < bounds.1 ==> !is_white_space(chars@[bounds.0 as int]) && !is_white_space(
            chars@[bounds.1 - 1],
        ),
        bounds.0 == bounds.1 ==> bounds.1 == to,
{
    let mut start: usize = from;
    while start < to && is_whitespace(chars[start])
        invariant
            from <= start <= to <= chars.len(),
            trim_start_spec(chars@.subrange(from as int, to as int)) == trim_start_spec(
                chars@.subrange(start as int, to as int),
            ),
            forall|i: int| from <= i < start ==> is_white_space(#[trigger] chars@[i]),
        decreases to - start,
    {
        assert(chars@.subrange(start as int, to as int).drop_first() == chars@.subrange(
            start + 1,
            to as int,
        ));
        start = start + 1;
    }
    let mut end: usize = to;
    while start < end && is_whitespace(chars[end - 1])
        invariant
            from <= start <= end <= to <= chars.len(),
            trim_start_spec(chars@.subrange(from as int, to as int)) == chars@.subrange(
                start as int,
                to as int,
            ),
            trim_end_spec(chars@.subrange(start as int, to as int)) == trim_end_spec(
                chars@.subrange(start as int, end as int),
            ),
            forall|i: int| from <= i < start ==> is_white_space(#[trigger] chars@[i]),
            forall|i: int| end <= i < to ==> is_white_space(#[trigger] chars@[i]),
            start < to ==> !is_white_space(chars@[start as int]),
        decreases end - start,
    {
        assert(chars@.subrange(start as int, end as int).drop_last() == chars@.subrange(
            start as int,
            end - 1,
        ));
        end = end - 1;
    }
    (start, end)
}

/// The character that writes the digit `d`.
pub open spec fn digit_char(d: nat) -> char {
    if d == 0 {
        '0'
    } else if d == 1 {
        '1'
    } else if d == 2 {
        '2'
    } else if d == 3 {
        '3'
    } else if d == 4 {
        '4'
    } else if d == 5 {
        '5'
    } else if d == 6 {
        '6'
    } else if d == 7 {
        '7'
    } else if d == 8 {
        '8'
    } else {
        '9'
    }
}

/// `n` written in decimal, without leading zeros.
pub open spec fn decimal(n: nat) -> Seq<char>
    decreases n,
{
    if n < 10 {
        seq![digit_char(n)]
    } else {
        decimal(n / 10).push(digit_char(n % 10))
    }
}

/// The one-character text of a digit.
fn digit_text(d: usize) -> (text: &'static str)
    requires
        d < 10,
    ensures
        text@ == seq![digit_char(d as nat)],
{
    proof {
        reveal_strlit("0");
        reveal_strlit("1");
        reveal_strlit("2");
        reveal_strlit("3");
        reveal_strlit("4");
        reveal_strlit("5");
        reveal_strlit("6");
        reveal_strlit("7");
        reveal_strlit("8");
        reveal_strlit("9");
    }
    let text: &'static str = if d == 0 {
        "0"
    } else if d == 1 {
        "1"
    } else if d == 2 {
        "2"
    } else if d == 3 {
        "3"
    } else if d == 4 {
        "4"
    } else if d == 5 {
        "5"
    } else if d == 6 {
        "6"
    } else if d == 7 {
        "7"
    } else if d == 8 {
        "8"
    } else {
        "9"
    };
    assert(text@ =~= seq![digit_char(d as nat)]);
    text
}

/// Writes `n` in decimal.
pub fn decimal_string(n: usize) -> (text: String)
    ensures
        text@ == decimal(n as nat),
    decreases n,
{
    if n < 10 {
        String::from_str(digit_text(n))
    } else {
        let mut text: String = decimal_string(n / 10);
        text.append(digit_text(n % 10));
        assert(text@ =~= decimal(n as nat));
        text
    }
}

/// The digit that `c` writes, if it writes one.
pub open spec fn digit_value(c: char) -> Option<nat> {
    if 0x30 <= c as u32 <= 0x39 {
        Some((c as u32 - 0x30) as nat)
    } else {
        None
    }
}

/// The number that a non-empty run of digits writes; `None` for anything else.
pub open spec fn digits_value(s: Seq<char>) -> Option<nat>
    decreases s.len(),
{
    if s.len() == 0 {
        None
    } else if s.len() == 1 {
        digit_value(s.last())
    } else {
        match (digits_value(s.drop_last()), digit_value(s.last())) {
            (Some(high), Some(low)) => Some(10 * high + low),
            _ => None,
        }
    }
}

/// The number that `s` writes: digits, with at most one `+` in front of them.
pub open spec fn parse_number(s: Seq<char>) -> Option<nat> {
    if s.len() >= 2 && s.first() == '+' {
        digits_value(s.drop_first())
    } else {
        digits_value(s)
    }
}

/// The number that `s` writes, provided it does not exceed `max`.
pub open spec fn bounded_number(s: Seq<char>, max: nat) -> Option<nat> {
    match parse_number(s) {
        Some(n) => if n <= max {
            Some(n)
        } else {
            None
        },
        None => None,
    }
}

/// A run of digits writes at least as much as any of its non-empty beginnings.
pub proof fn lemma_digits_value_grows(s: Seq<char>, k: int)
    requires
        1 <= k <= s.len(),
        digits_value(s) is Some,
    ensures
        digits_value(s.take(k)) is Some,
        digits_value(s.take(k))->0 <= digits_value(s)->0,
    decreases s.len(),
{
    if k == s.len() {
        assert(s.take(k) =~= s);
    } else {
        assert(s.drop_last().take(k) =~= s.take(k));
        lemma_digits_value_grows(s.drop_last(), k);
    }
}

/// A run of digits is none once one of its beginnings is none.
pub proof fn lemma_digits_value_fails(s: Seq<char>, k: int)
    requires
        1 <= k <= s.len(),
        digits_value(s.take(k)) is None,
    ensures
        digits_value(s) is None,
    decreases s.len(),
{
    if k == s.len() {
        assert(s.take(k) =~= s);
    } else {
        assert(s.drop_last().take(k) =~= s.take(k));
        lemma_digits_value_fails(s.drop_last(), k);
    }
}

/// A number written in decimal is a run of digits that writes that number.
pub proof fn lemma_decimal_reads_back(n: nat)
    ensures
        decimal(n).len() >= 1,
        forall|i: int| 0 <= i < decimal(n).len() ==> digit_value(#[trigger] decimal(n)[i]) is Some,
        digits_value(decimal(n)) == Some(n),
        parse_number(decimal(n)) == Some(n),
        trimmed(decimal(n)) == decimal(n),
    decreases n,
{
    if n >= 10 {
        lemma_decimal_reads_back(n / 10);
        assert(decimal(n).drop_last() =~= decimal(n / 10));
        assert(decimal(n).last() == digit_char(n % 10));
    }
    assert(digit_value(decimal(n).first()) is Some);
    assert(digit_value(decimal(n).last()) is Some);
}

/// Reads the run of digits `chars[from..to]`, giving up as soon as it exceeds
/// `max`.
fn read_digits(chars: &Vec<char>, from: usize, to: usize, max: usize) -> (number: Option<usize>)
    requires
        from <= to <= chars.len(),
    ensures
        match digits_value(chars@.subrange(from as int, to as int)) {
            Some(n) => if n <= max {
                number == Some(n as usize)
            } else {
                number is None
            },
            None => number is None,
        },
{
    let ghost run = chars@.subrange(from as int, to as int);
    if from == to {
        return None;
    }
    let mut value: usize = 0;
    let mut at: usize = from;
    while at < to
        invariant
            from <= at <= to <= chars.len(),
            from < to,
            run == chars@.subrange(from as int, to as int),
            value <= max,
            at == from ==> value == 0,
            at > from ==> digits_value(run.take(at - from)) == Some(value as nat),
        decreases to - at,
    {
        let c: char = chars[at];
        let code: u32 = c as u32;
        let ghost next = run.take(at - from + 1);
        proof {
            assert(next.last() == chars@[at as int]);
            assert(next.drop_last() =~= run.take(at - from));
        }
        if code < 0x30 || code > 0x39 {
            proof {
                assert(digit_value(next.last()) is None);
                assert(digits_value(next) is None);
                lemma_digits_value_fails(run, at - from + 1);
            }
            return None;
        }
        let low: usize = (code - 0x30) as usize;
        proof {
            assert(digit_value(next.last()) == Some(low as nat));
            assert(digits_value(next) == Some((10 * value + low) as nat));
        }
        if low > max || value > (max - low) / 10 {
            proof {
                assert(10 * value + low > max) by (nonlinear_arith)
                    requires
                        low > max || (low <= max && value > (max - low) / 10),
                        value >= 0,
                ;
                if digits_value(run) is Some {
                    lemma_digits_value_grows(run, at - from + 1);
                }
            }
            return None;
        }
        proof {
            assert(10 * value + low <= max) by (nonlinear_arith)
                requires
                    value <= (max - low) / 10,
                    low <= max,
            ;
        }
        value = 10 * value + low;
        at = at + 1;
    }
    proof {
        assert(run.take(to - from) =~= run);
    }
    Some(value)
}

/// Reads the number that `chars[from..to]` writes, provided it does not exceed
/// `max`.
pub fn read_number(chars: &Vec<char>, from: usize, to: usize, max: usize) -> (number: Option<
    usize,
>)
    requires
        from <= to <= chars.len(),
    ensures
        match bounded_number(chars@.subrange(from as int, to as int), max as nat) {
            Some(n) => number == Some(n as usize),
            None => number is None,
        },
{
    let ghost s = chars@.subrange(from as int, to as int);
    if to - from >= 2 && chars[from] == '+' {
        proof {
            assert(s.first() == '+');
            assert(s.drop_first() =~= chars@.subrange(from + 1, to as int));
        }
        read_digits(chars, from + 1, to, max)
    } else {
        read_digits(chars, from, to, max)
    }
}

/// The code of `c`, with the letters `A` to `Z` taken as `a` to `z`.
pub open spec fn ascii_lower(c: char) -> u32 {
    let code = c as u32;
    if 0x41 <= code <= 0x5A {
        (code + 0x20) as u32
    } else {
        code
    }
}

/// Whether `a` and `b` are the same text once the case of the letters `A` to
/// `Z` is ignored.
pub open spec fn eq_ignoring_ascii_case(a: Seq<char>, b: Seq<char>) -> bool {
    &&& a.len() == b.len()
    &&& forall|i: int| 0 <= i < a.len() ==> ascii_lower(#[trigger] a[i]) == ascii_lower(b[i])
}

fn ascii_lowered(c: char) -> (code: u32)
    ensures
        code == ascii_lower(c),
{
    let code: u32 = c as u32;
    if 0x41 <= code && code <= 0x5A {
        code + 0x20
    } else {
        code
    }
}

/// Tells whether `chars[from..to]` is `word`, ignoring the case of the letters
/// `A` to `Z`.
pub fn equals_ignoring_ascii_case(chars: &Vec<char>, from: usize, to: usize, word: &str) -> (same:
    bool)
    requires
        from <= to <= chars.len(),
    ensures
        same == eq_ignoring_ascii_case(chars@.subrange(from as int, to as int), word@),
{
    let letters: Vec<char> = chars_of(word);
    let ghost part = chars@.subrange(from as int, to as int);
    if to - from != letters.len() {
        return false;
    }
    let mut at: usize = 0;
    while at < letters.len()
        invariant
            from <= to <= chars.len(),
            to - from == letters.len(),
            at <= letters.len(),
            letters@ == word@,
            part == chars@.subrange(from as int, to as int),
            forall|i: int| 0 <= i < at ==> ascii_lower(#[trigger] part[i]) == ascii_lower(word@[i]),
        decreases letters.len() - at,
    {
        if ascii_lowered(chars[from + at]) != ascii_lowered(letters[at]) {
            assert(part[at as int] == chars@[from + at]);
            return false;
        }
        assert(part[at as int] == chars@[from + at]);
        at = at + 1;
    }
    true
}

/// The pieces of `s` between its commas: one more piece than `s` has commas.
pub open spec fn split_commas(s: Seq<char>) -> Seq<Seq<char>>
    decreases s.len(),
{
    if s.len() == 0 {
        seq![Seq::<char>::empty()]
    } else {
        let before = split_commas(s.drop_last());
        if s.last() == ',' {
            before.push(Seq::<char>::empty())
        } else {
            before.drop_last().push(before.last().push(s.last()))
        }
    }
}

/// The pieces put together again, with a comma between each two of them.
pub open spec fn joined(pieces: Seq<Seq<char>>) -> Seq<char>
    decreases pieces.len(),
{
    if pieces.len() == 0 {
        Seq::<char>::empty()
    } else if pieces.len() == 1 {
        pieces.last()
    } else {
        joined(pieces.drop_last()) + seq![','] + pieces.last()
    }
}

/// Splitting at the commas takes a text apart into pieces without commas:
/// there is at least one piece, no piece holds a comma, and the pieces, put
/// together again with commas between them, are the text.
pub proof fn law_split_commas(s: Seq<char>)
    ensures
        split_commas(s).len() >= 1,
        forall|k: int, i: int|
            0 <= k < split_commas(s).len() && 0 <= i < split_commas(s)[k].len() ==> (
            #[trigger] split_commas(s)[k][i]) != ',',
        joined(split_commas(s)) == s,
    decreases s.len(),
{
    if s.len() == 0 {
        assert(joined(split_commas(s)) =~= s);
    } else {
        let before = split_commas(s.drop_last());
        let after = split_commas(s);
        law_split_commas(s.drop_last());
        if s.last() == ',' {
            assert(after.drop_last() =~= before);
            assert(joined(after) =~= s);
        } else {
            let grown = before.last().push(s.last());
            assert(after.last() == grown);
            if before.len() > 1 {
                assert(after.drop_last() =~= before.drop_last());
                assert(joined(after) =~= joined(before).push(s.last()));
            } else {
                assert(joined(after) =~= joined(before).push(s.last()));
            }
            assert(joined(after) =~= s);
            assert forall|k: int, i: int|
                0 <= k < after.len() && 0 <= i < after[k].len() implies (#[trigger] after[k][i])
                != ',' by {
                if k < after.len() - 1 {
                    assert(after[k] == before[k]);
                } else if i < before.last().len() {
                    assert(after[k][i] == before.last()[i]);
                }
            }
        }
    }
}

/// The names in a comma-separated list: its pieces, each without the white
/// space around it.
pub open spec fn identifiers(list: Seq<char>) -> Seq<Seq<char>> {
    split_commas(list).map_values(|piece: Seq<char>| trimmed(piece))
}

/// What each of the strings holds.
pub open spec fn texts(strings: Seq<String>) -> Seq<Seq<char>> {
    strings.map_values(|text: String| text@)
}

/// Takes a comma-separated list apart into its names.
pub fn split_identifiers(list: &str) -> (names: Vec<String>)
    ensures
        texts(names@) == identifiers(list@),
{
    let chars: Vec<char> = chars_of(list);
    let mut names: Vec<String> = Vec::new();
    let ghost mut pieces: Seq<Seq<char>> = Seq::empty();
    let mut start: usize = 0;
    let mut at: usize = 0;
    assert(chars@.take(0) =~= Seq::<char>::empty());
    assert(split_commas(chars@.take(0)) =~= pieces.push(chars@.subrange(0, 0)));
    assert(texts(names@) =~= pieces.map_values(|piece: Seq<char>| trimmed(piece)));
    while at < chars.len()
        invariant
            chars@ == list@,
            start <= at <= chars.len(),
            split_commas(chars@.take(at as int)) == pieces.push(
                chars@.subrange(start as int, at as int),
            ),
            texts(names@) == pieces.map_values(|piece: Seq<char>| trimmed(piece)),
        decreases chars.len() - at,
    {
        let ghost piece = chars@.subrange(start as int, at as int);
        proof {
            assert(chars@.take(at + 1).drop_last() =~= chars@.take(at as int));
            assert(chars@.take(at + 1).last() == chars@[at as int]);
            assert(pieces.push(piece).drop_last() =~= pieces);
            assert(pieces.push(piece).last() == piece);
        }
        if chars[at] == ',' {
            let bounds: (usize, usize) = trim_bounds(&chars, start, at);
            let name: String = String::from_str(list.substring_char(bounds.0, bounds.1));
            proof {
                assert(texts(names@.push(name)) =~= texts(names@).push(name@));
                assert(pieces.push(piece).map_values(|piece: Seq<char>| trimmed(piece))
                    =~= pieces.map_values(|piece: Seq<char>| trimmed(piece)).push(trimmed(piece)));
                pieces = pieces.push(piece);
                assert(chars@.subrange(at + 1, at + 1) =~= Seq::<char>::empty());
            }
            names.push(name);
            start = at + 1;
        } else {
            proof {
                assert(piece.push(chars@[at as int]) =~= chars@.subrange(start as int, at + 1));
            }
        }
        at = at + 1;
    }
    let ghost piece = chars@.subrange(start as int, at as int);
    let bounds: (usize, usize) = trim_bounds(&chars, start, at);
    let name: String = String::from_str(list.substring_char(bounds.0, bounds.1));
    proof {
        assert(chars@.take(at as int) =~= chars@);
        assert(texts(names@.push(name)) =~= texts(names@).push(name@));
        assert(pieces.push(piece).map_values(|piece: Seq<char>| trimmed(piece)) =~= pieces.map_values(
            |piece: Seq<char>| trimmed(piece),
        ).push(trimmed(piece)));
    }
    names.push(name);
    names
}

/// A rule of `n` dashes.
pub open spec fn dashes(n: nat) -> Seq<char> {
    Seq::new(n, |i: int| '-')
}

/// Draws a rule of `count` dashes at the end of `line`.
pub fn push_dashes(line: &mut String, count: usize)
    ensures
        final(line)@ == old(line)@ + dashes(count as nat),
{
    let mut drawn: usize = 0;
    assert(line@ =~= old(line)@ + dashes(0));
    while drawn < count
        invariant
            drawn <= count,
            line@ == old(line)@ + dashes(drawn as nat),
        decreases count - drawn,
    {
        proof {
            reveal_strlit("-");
        }
        line.append("-");
        drawn = drawn + 1;
        assert(line@ =~= old(line)@ + dashes(drawn as nat));
    }
}

} // verus!
