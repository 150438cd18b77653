//! The payload of the cup counter: a number in decimal, with white space around it.

use vstd::prelude::*;

verus! {

/// The length of the white-space character, in UTF-8, at the head of `bytes`; none if there is
/// none.
pub open spec fn blank_len(bytes: Seq<u8>) -> nat {
    if bytes.len() >= 1 && (0x09 <= bytes[0] <= 0x0d || bytes[0] == 0x20) {
        1
    } else if bytes.len() >= 2 && bytes[0] == 0xc2 && (bytes[1] == 0x85 || bytes[1] == 0xa0) {
        2
    } else if bytes.len() >= 3 && wide_blank(bytes[0], bytes[1], bytes[2]) {
        3
    } else {
        0
    }
}

/// Whether three bytes are a white-space character: U+1680, U+2000 to U+200A, U+2028, U+2029,
/// U+202F, U+205F or U+3000.
pub open spec fn wide_blank(a: u8, b: u8, c: u8) -> bool {
    ||| a == 0xe1 && b == 0x9a && c == 0x80
    ||| a == 0xe2 && b == 0x80 && (0x80 <= c <= 0x8a || c == 0xa8 || c == 0xa9 || c == 0xaf)
    ||| a == 0xe2 && b == 0x81 && c == 0x9f
    ||| a == 0xe3 && b == 0x80 && c == 0x80
}

/// Whether the bytes are nothing but white space.
pub open spec fn blank(bytes: Seq<u8>) -> bool
    decreases bytes.len(),
{
    bytes.len() == 0 || blank_len(bytes) > 0 && blank(bytes.skip(blank_len(bytes) as int))
}

pub open spec fn digit(byte: u8) -> bool {
    0x30 <= byte <= 0x39
}

/// Whether the bytes are decimal digits, at least one.
pub open spec fn digits(bytes: Seq<u8>) -> bool {
    bytes.len() > 0 && forall|i: int| 0 <= i < bytes.len() ==> digit(#[trigger] bytes[i])
}

/// The number that decimal digits stand for.
pub open spec fn decimal(bytes: Seq<u8>) -> nat
    decreases bytes.len(),
{
    if bytes.len() == 0 {
        0
    } else {
        10 * decimal(bytes.drop_last()) + (bytes.last() - 0x30) as nat
    }
}

/// The bytes without a plus sign at the head.
pub open spec fn unsigned(bytes: Seq<u8>) -> Seq<u8> {
    if bytes.len() > 0 && bytes[0] == 0x2b {
        bytes.skip(1)
    } else {
        bytes
    }
}

/// Whether the bytes are the decimal notation of `count`.
pub open spec fn numeral(bytes: Seq<u8>, count: nat) -> bool {
    digits(unsigned(bytes)) && decimal(unsigned(bytes)) == count
}

/// Whether the bytes from `i` to `j` are a notation of `count` with nothing but white space
/// around them.
pub open spec fn numeral_at(data: Seq<u8>, i: int, j: int, count: nat) -> bool {
    &&& 0 <= i <= j <= data.len()
    &&& blank(data.subrange(0, i))
    &&& numeral(data.subrange(i, j), count)
    &&& blank(data.subrange(j, data.len() as int))
}

/// Whether a payload says `count`.
pub open spec fn says(data: Seq<u8>, count: nat) -> bool {
    exists|i: int, j: int| numeral_at(data, i, j, count)
}

/// A character of white space is one in every text that goes on after it.
proof fn lemma_blank_len_extends(bytes: Seq<u8>, n: int)
    requires
        0 <= n <= bytes.len(),
        blank_len(bytes.take(n)) > 0,
    ensures
        blank_len(bytes) == blank_len(bytes.take(n)),
        blank_len(bytes) <= n,
{
}

/// Of two stretches of white space from one start, the longer goes on blank after the shorter.
proof fn lemma_blank_rest(bytes: Seq<u8>, short: int, long: int)
    requires
        0 <= short <= long <= bytes.len(),
        blank(bytes.subrange(0, short)),
        blank(bytes.subrange(0, long)),
    ensures
        blank(bytes.subrange(short, long)),
    decreases short,
{
    if short == 0 {
        return ;
    }
    let (a, b) = (bytes.subrange(0, short), bytes.subrange(0, long));
    assert(a =~= bytes.take(short) && b =~= bytes.take(long));
    let k = blank_len(a) as int;
    lemma_blank_len_extends(bytes, short);
    lemma_blank_len_extends(bytes, long);
    let rest = bytes.skip(k);
    assert(a.skip(k) =~= rest.subrange(0, short - k));
    assert(b.skip(k) =~= rest.subrange(0, long - k));
    lemma_blank_rest(rest, short - k, long - k);
    assert(rest.subrange(short - k, long - k) =~= bytes.subrange(short, long));
}

/// White space that goes on after white space is white space as a whole.
pub proof fn lemma_blank_joins(bytes: Seq<u8>, n: int)
    requires
        0 <= n <= bytes.len(),
        blank(bytes.subrange(0, n)),
        blank(bytes.skip(n)),
    ensures
        blank(bytes),
    decreases n,
{
    if n == 0 {
        assert(bytes.skip(0) =~= bytes);
        return ;
    }
    let head = bytes.subrange(0, n);
    assert(head =~= bytes.take(n));
    lemma_blank_len_extends(bytes, n);
    let k = blank_len(bytes) as int;
    let rest = bytes.skip(k);
    assert(head.skip(k) =~= rest.subrange(0, n - k));
    assert(rest.skip(n - k) =~= bytes.skip(n));
    lemma_blank_joins(rest, n - k);
}

/// Skip white space from position `from`.
fn skip_blank(data: &[u8], from: usize) -> (at: usize)
    requires
        from <= data@.len(),
    ensures
        from <= at <= data@.len(),
        blank(data@.subrange(from as int, at as int)),
        blank_len(data@.skip(at as int)) == 0,
{
    let mut at: usize = from;
    assert(data@.subrange(from as int, from as int) =~= Seq::empty());
    loop
        invariant
            from <= at <= data@.len(),
            blank(data@.subrange(from as int, at as int)),
        ensures
            from <= at <= data@.len(),
            blank(data@.subrange(from as int, at as int)),
            blank_len(data@.skip(at as int)) == 0,
        decreases data@.len() - at,
    {
        let left: usize = data.len() - at;
        let ghost rest = data@.skip(at as int);
        let len: usize = if left >= 1 && (data[at] >= 0x09 && data[at] <= 0x0d || data[at] == 0x20) {
            1
        } else if left >= 2 && data[at] == 0xc2 && (data[at + 1] == 0x85 || data[at + 1] == 0xa0) {
            2
        } else if left >= 3 && is_wide_blank(data[at], data[at + 1], data[at + 2]) {
            3
        } else {
            0
        };
        assert(len == blank_len(rest));
        if len == 0 {
            break;
        }
        proof {
            let longer = data@.subrange(from as int, at + len);
            let n = at - from;
            let one = data@.subrange(at as int, at + len);
            assert(longer.subrange(0, n) =~= data@.subrange(from as int, at as int));
            assert(longer.skip(n) =~= one);
            assert(blank_len(one) == len);
            assert(blank(one.skip(len as int)));
            assert(blank(one));
            lemma_blank_joins(longer, n);
        }
        at = at + len;
    }
    at
}

fn is_wide_blank(a: u8, b: u8, c: u8) -> (res: bool)
    ensures
        res == wide_blank(a, b, c),
{
    if a == 0xe1 {
        b == 0x9a && c == 0x80
    } else if a == 0xe2 {
        b == 0x80 && (c >= 0x80 && c <= 0x8a || c == 0xa8 || c == 0xa9 || c == 0xaf) || b == 0x81
            && c == 0x9f
    } else {
        a == 0xe3 && b == 0x80 && c == 0x80
    }
}

/// Where the digits from position `from` end, and their value unless it exceeds 64 bits.
fn read_digits(data: &[u8], from: usize) -> (res: (usize, Option<u64>))
    requires
        from <= data@.len(),
    ensures
        from <= res.0 <= data@.len(),
        forall|i: int| from <= i < res.0 ==> digit(#[trigger] data@[i]),
        res.0 < data@.len() ==> !digit(data@[res.0 as int]),
        match res.1 {
            Some(value) => value == decimal(data@.subrange(from as int, res.0 as int)),
            None => decimal(data@.subrange(from as int, res.0 as int)) > u64::MAX,
        },
{
    let mut at: usize = from;
    let mut value: Option<u64> = Some(0);
    while at < data.len() && data[at] >= 0x30 && data[at] <= 0x39
        invariant
            from <= at <= data@.len(),
            forall|i: int| from <= i < at ==> digit(#[trigger] data@[i]),
            match value {
                Some(v) => v == decimal(data@.subrange(from as int, at as int)),
                None => decimal(data@.subrange(from as int, at as int)) > u64::MAX,
            },
        decreases data@.len() - at,
    {
        let d: u64 = (data[at] - 0x30) as u64;
        proof {
            let longer = data@.subrange(from as int, at + 1);
            assert(longer.drop_last() =~= data@.subrange(from as int, at as int));
        }
        value = match value {
            Some(v) => {
                let next: u128 = 10 * v as u128 + d as u128;
                if next <= u64::MAX as u128 {
                    Some(next as u64)
                } else {
                    None
                }
            },
            None => None,
        };
        at = at + 1;
    }
    (at, value)
}

/// A payload says a number in one place only: after the white space at its head and up to the
/// end of the digits.
proof fn lemma_numeral_place(data: Seq<u8>, i: int, j: int, count: nat, start: int, end: int)
    requires
        numeral_at(data, i, j, count),
        0 <= start <= data.len(),
        blank(data.subrange(0, start)),
        blank_len(data.skip(start)) == 0,
        ({
            let first = if start < data.len() && data[start] == 0x2b {
                start + 1
            } else {
                start
            };
            &&& first <= end <= data.len()
            &&& forall|k: int| first <= k < end ==> digit(#[trigger] data[k])
            &&& end < data.len() ==> !digit(data[end])
        }),
    ensures
        i == start,
        j == end,
{
    let text = data.subrange(i, j);
    assert(text.len() > 0);
    assert(text[0] == data[i]);
    if text[0] != 0x2b {
        assert(digit(unsigned(text)[0]));
    }
    if i < start {
        lemma_blank_rest(data, i, start);
        let gap = data.subrange(i, start);
        assert(gap[0] == data[i]);
        assert(blank_len(gap) > 0);
    }
    if start < i {
        lemma_blank_rest(data, start, i);
        let gap = data.subrange(start, i);
        assert(gap =~= data.skip(start).take(i - start));
        lemma_blank_len_extends(data.skip(start), i - start);
    }
    let first = if data[start] == 0x2b {
        start + 1
    } else {
        start
    };
    let number = unsigned(text);
    assert(number =~= data.subrange(first, j));
    if j < end {
        let tail = data.subrange(j, data.len() as int);
        assert(tail[0] == data[j]);
        assert(digit(data[j]));
        assert(blank_len(tail) == 0);
    }
    if end < j {
        assert(digit(number[end - first]));
        assert(number[end - first] == data[end]);
    }
}

/// A payload says a number in one place only, and only one number.
pub proof fn lemma_place_is_unique(data: Seq<u8>, i: int, j: int, first: nat, k: int, l: int, second: nat)
    requires
        numeral_at(data, i, j, first),
        numeral_at(data, k, l, second),
    ensures
        first == second,
{
    let text = data.subrange(i, j);
    let number = unsigned(text);
    assert(text[0] == data[i]);
    let start = if text[0] == 0x2b {
        i + 1
    } else {
        i
    };
    assert(number =~= data.subrange(start, j));
    assert(digit(number[0]) && number[0] == data[start]);
    assert(blank_len(data.skip(i)) == 0);
    assert forall|n: int| start <= n < j implies digit(#[trigger] data[n]) by {
        assert(number[n - start] == data[n]);
    }
    if j < data.len() {
        let tail = data.subrange(j, data.len() as int);
        assert(tail[0] == data[j]);
        assert(blank_len(tail) > 0);
    }
    lemma_numeral_place(data, k, l, second, i, j);
}

/// The number of cups that a payload says, or `None` where it says none that fits in 64 bits.
pub fn parse_cup_counter(data: &[u8]) -> (res: Option<u64>)
    ensures
        forall|count: u64| #[trigger] says(data@, count as nat) <==> res == Some(count),
{
    let start: usize = skip_blank(data, 0);
    let first: usize = if start < data.len() && data[start] == 0x2b {
        start + 1
    } else {
        start
    };
    let (end, value): (usize, Option<u64>) = read_digits(data, first);
    let stop: usize = skip_blank(data, end);
    let ghost text = data@.subrange(start as int, end as int);
    let ghost number = data@.subrange(first as int, end as int);
    let found: bool = end > first && stop == data.len();
    proof {
        assert forall|i: int, j: int, count: nat| #[trigger] numeral_at(data@, i, j, count) implies found
            && i == start && j == end && count == decimal(number) by {
            lemma_numeral_place(data@, i, j, count, start as int, end as int);
            assert(data@.subrange(i, j) == text);
            assert(unsigned(text) =~= number);
            let tail = data@.subrange(end as int, data@.len() as int);
            if stop < data@.len() {
                let n = stop - end;
                assert(tail.subrange(0, n) =~= data@.subrange(end as int, stop as int));
                assert(tail.subrange(0, tail.len() as int) =~= tail);
                lemma_blank_rest(tail, n, tail.len() as int);
                assert(tail.subrange(n, tail.len() as int) =~= data@.skip(stop as int));
            }
        }
        if found {
            assert(unsigned(text) =~= number) by {
                if first == start {
                    assert(digit(data@[start as int]));
                }
            }
            assert(digits(number));
            assert(data@.subrange(end as int, stop as int) =~= data@.subrange(
                end as int,
                data@.len() as int,
            ));
            assert(numeral_at(data@, start as int, end as int, decimal(number)));
            assert(says(data@, decimal(number)));
        }
        assert forall|count: u64| #[trigger] says(data@, count as nat) implies found && decimal(number)
            == count by {
            let (i, j) = choose|i: int, j: int| numeral_at(data@, i, j, count as nat);
            assert(numeral_at(data@, i, j, count as nat));
        }
    }
    if found {
        value
    } else {
        None
    }
}

} // verus!
