//! Character-level text operations with exact specifications.
//!
//! Text is modelled as `Seq<char>`; the executable functions work on slices of
//! `char` and are proved against the recursive definitions given here.

use vstd::prelude::*;

verus! {

/// Whether `c` carries the Unicode `White_Space` property.
pub open spec fn is_whitespace(c: char) -> bool {
    let n = c as u32;
    ||| 0x09 <= n <= 0x0D
    ||| n == 0x20
    ||| n == 0x85
    ||| n == 0xA0
    ||| n == 0x1680
    ||| 0x2000 <= n <= 0x200A
    ||| n == 0x2028
    ||| n == 0x2029
    ||| n == 0x202F
    ||| n == 0x205F
    ||| n == 0x3000
}

/// Executable test for [`is_whitespace`].
pub fn char_is_whitespace(c: char) -> (b: bool)
    ensures
        b == is_whitespace(c),
{
    let n: u32 = c as u32;
    (0x09 <= n && n <= 0x0D) || n == 0x20 || n == 0x85 || n == 0xA0 || n == 0x1680 || (0x2000 <= n
        && n <= 0x200A) || n == 0x2028 || n == 0x2029 || n == 0x202F || n == 0x205F || n == 0x3000
}

/// Number of whitespace characters at the front of `s`.
pub open spec fn leading_whitespace(s: Seq<char>) -> nat
    decreases s.len(),
{
    if s.len() > 0 && is_whitespace(s[0]) {
        1 + leading_whitespace(s.drop_first())
    } else {
        0
    }
}

/// Number of whitespace characters at the back of `s`.
pub open spec fn trailing_whitespace(s: Seq<char>) -> nat
    decreases s.len(),
{
    if s.len() > 0 && is_whitespace(s.last()) {
        1 + trailing_whitespace(s.drop_last())
    } else {
        0
    }
}

/// `s` without its leading whitespace.
pub open spec fn trim_start(s: Seq<char>) -> Seq<char> {
    s.skip(leading_whitespace(s) as int)
}

/// `s` without its trailing whitespace.
pub open spec fn trim_end(s: Seq<char>) -> Seq<char> {
    s.take(s.len() - trailing_whitespace(s))
}

/// `s` without leading and trailing whitespace.
pub open spec fn trim(s: Seq<char>) -> Seq<char> {
    trim_end(trim_start(s))
}

/// Counts the whitespace characters at the front of `s`.
pub fn count_leading_whitespace(s: &[char]) -> (n: usize)
    ensures
        n == leading_whitespace(s@),
        n <= s@.len(),
{
    let mut i: usize = 0;
    proof {
        assert(s@.skip(0) =~= s@);
    }
    while i < s.len() && char_is_whitespace(s[i])
        invariant
            i <= s@.len(),
            leading_whitespace(s@) == i + leading_whitespace(s@.skip(i as int)),
        decreases s@.len() - i,
    {
        proof {
            assert(s@.skip(i as int)[0] == s@[i as int]);
            assert(s@.skip(i as int).drop_first() =~= s@.skip(i + 1));
        }
        i += 1;
    }
    proof {
        if i < s@.len() {
            assert(s@.skip(i as int)[0] == s@[i as int]);
        }
    }
    i
}

/// Counts the whitespace characters at the back of `s`.
pub fn count_trailing_whitespace(s: &[char]) -> (n: usize)
    ensures
        n == trailing_whitespace(s@),
        n <= s@.len(),
{
    let len = s.len();
    let mut i: usize = 0;
    proof {
        assert(s@.take(len as int) =~= s@);
    }
    while i < len && char_is_whitespace(s[len - 1 - i])
        invariant
            len == s@.len(),
            i <= len,
            trailing_whitespace(s@) == i + trailing_whitespace(s@.take(len - i)),
        decreases len - i,
    {
        proof {
            assert(s@.take(len - i).last() == s@[len - 1 - i]);
            assert(s@.take(len - i).drop_last() =~= s@.take(len - i - 1));
        }
        i += 1;
    }
    proof {
        if i < len {
            assert(s@.take(len - i).last() == s@[len - 1 - i]);
        }
    }
    i
}

/// Copies `s[from..to]` into a new vector.
pub fn copy_range(s: &[char], from: usize, to: usize) -> (v: Vec<char>)
    requires
        from <= to <= s@.len(),
    ensures
        v@ == s@.subrange(from as int, to as int),
{
    let mut v: Vec<char> = Vec::new();
    let mut i: usize = from;
    while i < to
        invariant
            from <= i <= to <= s@.len(),
            v@ == s@.subrange(from as int, i as int),
        decreases to - i,
    {
        v.push(s[i]);
        proof {
            assert(s@.subrange(from as int, i as int).push(s@[i as int]) =~= s@.subrange(
                from as int,
                i + 1,
            ));
        }
        i += 1;
    }
    v
}

/// Returns `s` without leading and trailing whitespace.
pub fn trimmed(s: &[char]) -> (v: Vec<char>)
    ensures
        v@ == trim(s@),
{
    let a = count_leading_whitespace(s);
    let rest = copy_range(s, a, s.len());
    let b = count_trailing_whitespace(rest.as_slice());
    proof {
        assert(s@.subrange(a as int, s@.len() as int) =~= s@.skip(a as int));
    }
    let v = copy_range(rest.as_slice(), 0, rest.len() - b);
    proof {
        assert(rest@.subrange(0, rest@.len() - b) =~= rest@.take(rest@.len() - b));
    }
    v
}

/// The text of a string that may be absent.
pub open spec fn text_of(s: Option<String>) -> Option<Seq<char>> {
    match s {
        Some(t) => Some(t@),
        None => None,
    }
}

/// The characters of `s`.
pub fn chars_of(s: &str) -> (v: Vec<char>)
    ensures
        v@ == s@,
{
    let mut v: Vec<char> = Vec::new();
    for c in it: s.chars()
        invariant
            it.seq() == s@,
            v@ == it.seq().take(it.index() as int),
    {
        proof {
            assert(it.seq().take(it.index() as int).push(c) =~= it.seq().take(it.index() + 1));
        }
        v.push(c);
    }
    proof {
        assert(s@.take(s@.len() as int) =~= s@);
    }
    v
}

/// The string that holds the characters of `s`.
pub fn string_of(s: &[char]) -> (r: String)
    ensures
        r@ == s@,
{
    let mut r = String::new();
    let mut i: usize = 0;
    while i < s.len()
        invariant
            i <= s@.len(),
            r@ == s@.take(i as int),
        decreases s@.len() - i,
    {
        r.push(s[i]);
        proof {
            assert(s@.take(i as int).push(s@[i as int]) =~= s@.take(i + 1));
        }
        i += 1;
    }
    proof {
        assert(s@.take(i as int) =~= s@);
    }
    r
}

/// Appends the characters of `s` to `out`.
pub fn push_str(out: &mut Vec<char>, s: &str)
    ensures
        final(out)@ == old(out)@ + s@,
{
    let mut tail = chars_of(s);
    out.append(&mut tail);
}

/// Whether `a` holds exactly the characters of `b`.
pub fn same_text(a: &[char], b: &[char]) -> (r: bool)
    ensures
        r == (a@ == b@),
{
    if a.len() != b.len() {
        return false;
    }
    let mut i: usize = 0;
    while i < a.len()
        invariant
            a@.len() == b@.len(),
            i <= a@.len(),
            a@.take(i as int) == b@.take(i as int),
        decreases a@.len() - i,
    {
        if a[i] != b[i] {
            return false;
        }
        proof {
            assert(a@.take(i + 1) =~= a@.take(i as int).push(a@[i as int]));
            assert(b@.take(i + 1) =~= b@.take(i as int).push(b@[i as int]));
        }
        i += 1;
    }
    proof {
        assert(a@.take(i as int) =~= a@);
        assert(b@.take(i as int) =~= b@);
    }
    true
}

/// The character that writes the digit `d`.
pub open spec fn digit_char(d: nat) -> char {
    if d == 0 {
        '0'
    } else if d == 1 {
        '1'
    } else if d == 2 {
        '2'
    } else if d == 3 {
        '3'
    } else if d == 4 {
        '4'
    } else if d == 5 {
        '5'
    } else if d == 6 {
        '6'
    } else if d == 7 {
        '7'
    } else if d == 8 {
        '8'
    } else {
        '9'
    }
}

/// The digit that `c` writes, if it is one of `0` to `9`.
pub open spec fn digit_value(c: char) -> Option<nat> {
    if c == '0' {
        Some(0)
    } else if c == '1' {
        Some(1)
    } else if c == '2' {
        Some(2)
    } else if c == '3' {
        Some(3)
    } else if c == '4' {
        Some(4)
    } else if c == '5' {
        Some(5)
    } else if c == '6' {
        Some(6)
    } else if c == '7' {
        Some(7)
    } else if c == '8' {
        Some(8)
    } else if c == '9' {
        Some(9)
    } else {
        None
    }
}

/// `n` written in decimal, without sign or leading zeros.
pub open spec fn decimal(n: nat) -> Seq<char>
    decreases n,
{
    if n < 10 {
        seq![digit_char(n)]
    } else {
        decimal(n / 10).push(digit_char(n % 10))
    }
}

/// Whether every character of `s` is a digit.
pub open spec fn all_digits(s: Seq<char>) -> bool {
    forall|i: int| 0 <= i < s.len() ==> (#[trigger] digit_value(s[i])) is Some
}

/// The number that the digits of `s` write in decimal.
pub open spec fn digits_value(s: Seq<char>) -> nat
    decreases s.len(),
{
    if s.len() == 0 {
        0
    } else {
        digits_value(s.drop_last()) * 10 + match digit_value(s.last()) {
            Some(d) => d,
            None => 0,
        }
    }
}

/// `s` without one leading plus sign.
pub open spec fn unsigned_part(s: Seq<char>) -> Seq<char> {
    if s.len() > 0 && s[0] == '+' {
        s.drop_first()
    } else {
        s
    }
}

/// The number that `s` writes: an optional plus sign and then one or more
/// digits, whose value fits the machine word. `None` for anything else.
pub open spec fn parse_number(s: Seq<char>) -> Option<usize> {
    let body = unsigned_part(s);
    if body.len() > 0 && all_digits(body) && digits_value(body) <= usize::MAX {
        Some(digits_value(body) as usize)
    } else {
        None
    }
}

fn digit_of(d: usize) -> (c: char)
    requires
        d < 10,
    ensures
        c == digit_char(d as nat),
{
    match d {
        0 => '0',
        1 => '1',
        2 => '2',
        3 => '3',
        4 => '4',
        5 => '5',
        6 => '6',
        7 => '7',
        8 => '8',
        _ => '9',
    }
}

fn value_of_digit(c: char) -> (r: Option<usize>)
    ensures
        match r {
            Some(d) => digit_value(c) == Some(d as nat) && d < 10,
            None => digit_value(c) is None,
        },
{
    match c {
        '0' => Some(0),
        '1' => Some(1),
        '2' => Some(2),
        '3' => Some(3),
        '4' => Some(4),
        '5' => Some(5),
        '6' => Some(6),
        '7' => Some(7),
        '8' => Some(8),
        '9' => Some(9),
        _ => None,
    }
}

/// Appends `n` in decimal to `out`.
pub fn push_decimal(out: &mut Vec<char>, n: usize)
    ensures
        final(out)@ == old(out)@ + decimal(n as nat),
    decreases n,
{
    if n >= 10 {
        push_decimal(out, n / 10);
    }
    out.push(digit_of(n % 10));
    proof {
        if n >= 10 {
            assert((old(out)@ + decimal((n / 10) as nat)).push(digit_char((n % 10) as nat))
                =~= old(out)@ + decimal(n as nat));
        } else {
            assert(old(out)@.push(digit_char(n as nat)) =~= old(out)@ + decimal(n as nat));
        }
    }
}

proof fn lemma_digits_value_grows(s: Seq<char>, k: int)
    requires
        0 <= k <= s.len(),
    ensures
        digits_value(s.take(k)) <= digits_value(s),
    decreases s.len() - k,
{
    if k < s.len() {
        assert(s.take(k + 1).drop_last() =~= s.take(k));
        lemma_digits_value_grows(s, k + 1);
    } else {
        assert(s.take(k) =~= s);
    }
}

/// Reads a number; see [`parse_number`].
pub fn read_number(s: &[char]) -> (r: Option<usize>)
    ensures
        r == parse_number(s@),
{
    let start: usize = if s.len() > 0 && s[0] == '+' {
        1
    } else {
        0
    };
    let ghost body = unsigned_part(s@);
    proof {
        assert(body =~= s@.skip(start as int));
        assert(body.take(0) =~= Seq::<char>::empty());
    }
    if start == s.len() {
        return None;
    }
    let mut acc: usize = 0;
    let mut i: usize = start;
    while i < s.len()
        invariant
            start <= i <= s@.len(),
            body == s@.skip(start as int),
            body == unsigned_part(s@),
            acc == digits_value(body.take(i - start)),
            forall|j: int| 0 <= j < i - start ==> (#[trigger] digit_value(body[j])) is Some,
        decreases s@.len() - i,
    {
        let ghost next = body.take(i - start + 1);
        proof {
            assert(next.drop_last() =~= body.take(i - start));
            assert(next.last() == s@[i as int]);
        }
        let d = match value_of_digit(s[i]) {
            Some(d) => d,
            None => {
                proof {
                    assert(body[i - start] == s@[i as int]);
                    assert(digit_value(body[i - start]) is None);
                    assert(!all_digits(body));
                }
                return None;
            },
        };
        let grown = match acc.checked_mul(10) {
            Some(t) => t.checked_add(d),
            None => None,
        };
        match grown {
            Some(t) => {
                acc = t;
            },
            None => {
                proof {
                    assert(digit_value(next.last()) == Some(d as nat));
                    assert(digits_value(next) == acc * 10 + d);
                    assert(digits_value(next) > usize::MAX);
                    lemma_digits_value_grows(body, i - start + 1);
                }
                return None;
            },
        }
        i += 1;
    }
    proof {
        assert(body.take(i - start) =~= body);
    }
    Some(acc)
}

/// Whether `needle` stands in `hay` at position `i`.
pub open spec fn occurs_at(hay: Seq<char>, needle: Seq<char>, i: int) -> bool {
    &&& 0 <= i
    &&& i + needle.len() <= hay.len()
    &&& hay.subrange(i, i + needle.len()) == needle
}

/// The first position at or behind `from` at which `needle` stands in `hay`.
pub open spec fn first_occurrence_from(hay: Seq<char>, needle: Seq<char>, from: int) -> Option<int>
    decreases hay.len() - from + 1,
{
    if from < 0 || from + needle.len() > hay.len() {
        None
    } else if occurs_at(hay, needle, from) {
        Some(from)
    } else {
        first_occurrence_from(hay, needle, from + 1)
    }
}

/// The first position at which `needle` stands in `hay`.
pub open spec fn first_occurrence(hay: Seq<char>, needle: Seq<char>) -> Option<int> {
    first_occurrence_from(hay, needle, 0)
}

fn stands_at(hay: &[char], needle: &[char], at: usize) -> (r: bool)
    requires
        at + needle@.len() <= hay@.len(),
    ensures
        r == occurs_at(hay@, needle@, at as int),
{
    let n: usize = needle.len();
    let h: usize = hay.len();
    let mut j: usize = 0;
    while j < n
        invariant
            j <= n,
            n == needle@.len(),
            h == hay@.len(),
            at + n <= h,
            forall|k: int| 0 <= k < j ==> hay@[at + k] == needle@[k],
        decreases n - j,
    {
        if hay[at + j] != needle[j] {
            proof {
                assert(hay@.subrange(at as int, at + needle@.len())[j as int] == hay@[at + j]);
            }
            return false;
        }
        j += 1;
    }
    proof {
        assert(hay@.subrange(at as int, at + needle@.len()) =~= needle@);
    }
    true
}

/// Finds the first position at which `needle` stands in `hay`.
pub fn find(hay: &[char], needle: &[char]) -> (r: Option<usize>)
    ensures
        match r {
            Some(at) => first_occurrence(hay@, needle@) == Some(at as int) && occurs_at(
                hay@,
                needle@,
                at as int,
            ),
            None => first_occurrence(hay@, needle@) is None,
        },
{
    if needle.len() > hay.len() {
        return None;
    }
    let last: usize = hay.len() - needle.len();
    let mut i: usize = 0;
    loop
        invariant
            i <= last,
            last == hay@.len() - needle@.len(),
            first_occurrence(hay@, needle@) == first_occurrence_from(hay@, needle@, i as int),
        decreases last - i,
    {
        if stands_at(hay, needle, i) {
            return Some(i);
        }
        if i == last {
            return None;
        }
        i += 1;
    }
}

/// The texts that a sequence of vectors holds.
pub open spec fn texts(v: Seq<Vec<char>>) -> Seq<Seq<char>> {
    Seq::new(v.len(), |i: int| v[i]@)
}

/// Number of characters of `s` that stand before its first delimiter; the
/// length of `s` where it holds none.
pub open spec fn run_length(s: Seq<char>, delims: Seq<char>) -> nat
    decreases s.len(),
{
    if s.len() == 0 || delims.contains(s[0]) {
        0
    } else {
        1 + run_length(s.drop_first(), delims)
    }
}

/// The pieces of `s` between its delimiters, in order. There is one piece
/// more than there are delimiters in `s`; a piece may be empty.
pub open spec fn split(s: Seq<char>, delims: Seq<char>) -> Seq<Seq<char>>
    decreases s.len(),
{
    let n = run_length(s, delims);
    if n >= s.len() {
        seq![s]
    } else {
        seq![s.take(n as int)] + split(s.skip(n as int + 1), delims)
    }
}

/// A stretch without delimiters is counted in full, and the count stops at a
/// delimiter that follows it.
pub proof fn lemma_run_length(s: Seq<char>, delims: Seq<char>, k: int)
    requires
        0 <= k <= s.len(),
        forall|j: int| 0 <= j < k ==> !delims.contains(#[trigger] s[j]),
        k < s.len() ==> delims.contains(s[k]),
    ensures
        run_length(s, delims) == k,
    decreases k,
{
    if k > 0 {
        let rest = s.drop_first();
        assert forall|j: int| 0 <= j < k - 1 implies !delims.contains(#[trigger] rest[j]) by {
            assert(rest[j] == s[j + 1]);
        }
        if k - 1 < rest.len() {
            assert(rest[k - 1] == s[k]);
        }
        lemma_run_length(rest, delims, k - 1);
        assert(!delims.contains(s[0]));
    }
}

/// Whether `c` is one of `delims`.
pub fn is_one_of(c: char, delims: &[char]) -> (r: bool)
    ensures
        r == delims@.contains(c),
{
    let mut i: usize = 0;
    while i < delims.len()
        invariant
            i <= delims@.len(),
            forall|j: int| 0 <= j < i ==> delims@[j] != c,
        decreases delims@.len() - i,
    {
        if delims[i] == c {
            return true;
        }
        i += 1;
    }
    false
}

/// Splits `s` at every character that is one of `delims`; see [`split`].
pub fn split_on(s: &[char], delims: &[char]) -> (pieces: Vec<Vec<char>>)
    ensures
        texts(pieces@) == split(s@, delims@),
        pieces@.len() >= 1,
{
    let mut pieces: Vec<Vec<char>> = Vec::new();
    let mut start: usize = 0;
    let mut i: usize = 0;
    proof {
        assert(s@.skip(0) =~= s@);
        assert(texts(pieces@) + split(s@, delims@) =~= split(s@, delims@));
    }
    while i < s.len()
        invariant
            start <= i <= s@.len(),
            forall|j: int| start <= j < i ==> !delims@.contains(#[trigger] s@[j]),
            split(s@, delims@) == texts(pieces@) + split(s@.skip(start as int), delims@),
        decreases s@.len() - i,
    {
        if is_one_of(s[i], delims) {
            let piece = copy_range(s, start, i);
            proof {
                let rest = s@.skip(start as int);
                assert forall|j: int| 0 <= j < i - start implies !delims@.contains(
                    #[trigger] rest[j],
                ) by {
                    assert(rest[j] == s@[start + j]);
                }
                assert(rest[i - start] == s@[i as int]);
                lemma_run_length(rest, delims@, i - start);
                assert(rest.take(i - start) =~= s@.subrange(start as int, i as int));
                assert(rest.skip(i - start + 1) =~= s@.skip(i + 1));
                assert(texts(pieces@.push(piece)) =~= texts(pieces@) + seq![piece@]);
                assert(texts(pieces@) + (seq![piece@] + split(s@.skip(i + 1), delims@)) =~= texts(
                    pieces@.push(piece),
                ) + split(s@.skip(i + 1), delims@));
            }
            pieces.push(piece);
            start = i + 1;
        }
        i += 1;
    }
    let piece = copy_range(s, start, s.len());
    proof {
        let rest = s@.skip(start as int);
        assert forall|j: int| 0 <= j < rest.len() implies !delims@.contains(#[trigger] rest[j]) by {
            assert(rest[j] == s@[start + j]);
        }
        lemma_run_length(rest, delims@, rest.len() as int);
        assert(rest =~= s@.subrange(start as int, s@.len() as int));
        assert(texts(pieces@.push(piece)) =~= texts(pieces@) + seq![piece@]);
    }
    pieces.push(piece);
    pieces
}

/// Number of lines of `s`: a line ends at a line feed, and the last line needs none.
pub open spec fn line_count(s: Seq<char>) -> nat
    decreases s.len(),
{
    if s.len() == 0 {
        0
    } else if s.len() == 1 {
        1
    } else if s[0] == '\n' {
        1 + line_count(s.drop_first())
    } else {
        line_count(s.drop_first())
    }
}

/// Counts the lines of `s`; see [`line_count`].
pub fn count_lines(s: &[char]) -> (n: usize)
    ensures
        n == line_count(s@),
{
    let len = s.len();
    if len == 0 {
        return 0;
    }
    let mut n: usize = 1;
    let mut i: usize = 0;
    proof {
        assert(s@.skip(0) =~= s@);
    }
    while i + 1 < len
        invariant
            len == s@.len(),
            i + 1 <= len,
            1 <= n <= i + 1,
            line_count(s@) == (n - 1) + line_count(s@.skip(i as int)),
        decreases len - i,
    {
        proof {
            assert(s@.skip(i as int)[0] == s@[i as int]);
            assert(s@.skip(i as int).drop_first() =~= s@.skip(i + 1));
        }
        if s[i] == '\n' {
            n += 1;
        }
        i += 1;
    }
    n
}

/// `s` with every line feed turned into a space.
pub open spec fn fold_lines(s: Seq<char>) -> Seq<char> {
    Seq::new(
        s.len(),
        |i: int|
            if s[i] == '\n' {
                ' '
            } else {
                s[i]
            },
    )
}

/// Turns every line feed of `s` into a space.
pub fn folded(s: &[char]) -> (v: Vec<char>)
    ensures
        v@ == fold_lines(s@),
{
    let mut v: Vec<char> = Vec::new();
    let mut i: usize = 0;
    while i < s.len()
        invariant
            i <= s@.len(),
            v@ == fold_lines(s@).take(i as int),
        decreases s@.len() - i,
    {
        let c = if s[i] == '\n' {
            ' '
        } else {
            s[i]
        };
        v.push(c);
        proof {
            assert(fold_lines(s@).take(i as int).push(c) =~= fold_lines(s@).take(i + 1));
        }
        i += 1;
    }
    proof {
        assert(fold_lines(s@).take(i as int) =~= fold_lines(s@));
    }
    v
}

/// Number of line feeds at the front of `s`.
pub open spec fn leading_newlines(s: Seq<char>) -> nat
    decreases s.len(),
{
    if s.len() > 0 && s[0] == '\n' {
        1 + leading_newlines(s.drop_first())
    } else {
        0
    }
}

/// Number of line feeds at the back of `s`.
pub open spec fn trailing_newlines(s: Seq<char>) -> nat
    decreases s.len(),
{
    if s.len() > 0 && s.last() == '\n' {
        1 + trailing_newlines(s.drop_last())
    } else {
        0
    }
}

/// `s` without the line feeds at its front and back.
pub open spec fn trim_newlines(s: Seq<char>) -> Seq<char> {
    let rest = s.skip(leading_newlines(s) as int);
    rest.take(rest.len() - trailing_newlines(rest))
}

/// Returns `s` without the line feeds at its front and back.
pub fn without_outer_newlines(s: &[char]) -> (v: Vec<char>)
    ensures
        v@ == trim_newlines(s@),
{
    let len = s.len();
    let mut a: usize = 0;
    proof {
        assert(s@.skip(0) =~= s@);
    }
    while a < len && s[a] == '\n'
        invariant
            len == s@.len(),
            a <= len,
            leading_newlines(s@) == a + leading_newlines(s@.skip(a as int)),
        decreases len - a,
    {
        proof {
            assert(s@.skip(a as int)[0] == s@[a as int]);
            assert(s@.skip(a as int).drop_first() =~= s@.skip(a + 1));
        }
        a += 1;
    }
    proof {
        if a < len {
            assert(s@.skip(a as int)[0] == s@[a as int]);
        }
    }
    let ghost rest = s@.skip(a as int);
    let mut b: usize = len;
    proof {
        assert(rest.take(rest.len() as int) =~= rest);
    }
    while b > a && s[b - 1] == '\n'
        invariant
            len == s@.len(),
            a <= b <= len,
            rest == s@.skip(a as int),
            trailing_newlines(rest) == (len - b) + trailing_newlines(rest.take(b - a)),
        decreases b,
    {
        proof {
            assert(rest.take(b - a).last() == s@[b - 1]);
            assert(rest.take(b - a).drop_last() =~= rest.take(b - a - 1));
        }
        b -= 1;
    }
    proof {
        if b > a {
            assert(rest.take(b - a).last() == s@[b - 1]);
        }
        assert(rest.take(rest.len() - (len - b)) =~= s@.subrange(a as int, b as int));
    }
    copy_range(s, a, b)
}

/// Number of characters of `s` that stand before its first blank line, that
/// is, before the first two line feeds in a row; the length of `s` where it
/// holds none.
pub open spec fn gap_position(s: Seq<char>) -> nat
    decreases s.len(),
{
    if s.len() < 2 {
        s.len()
    } else if s[0] == '\n' && s[1] == '\n' {
        0
    } else {
        1 + gap_position(s.drop_first())
    }
}

/// The blocks of `s`: the pieces between blank lines, the empty pieces left
/// out, each without the line feeds at its front and back.
pub open spec fn blocks(s: Seq<char>) -> Seq<Seq<char>>
    decreases s.len(),
{
    let n = gap_position(s);
    let piece = if n + 2 > s.len() {
        s
    } else {
        s.take(n as int)
    };
    let head = if piece.len() > 0 {
        seq![trim_newlines(piece)]
    } else {
        Seq::empty()
    };
    if n + 2 > s.len() {
        head
    } else {
        head + blocks(s.skip(n as int + 2))
    }
}

/// A stretch without a blank line is counted in full, and the count stops at
/// a blank line that follows it.
pub proof fn lemma_gap_position(s: Seq<char>, k: int)
    requires
        0 <= k <= s.len(),
        forall|j: int| 0 <= j < k && j + 1 < s.len() ==> !(#[trigger] s[j] == '\n' && s[j + 1] == '\n'),
        k < s.len() ==> k + 1 < s.len() && s[k] == '\n' && s[k + 1] == '\n',
    ensures
        gap_position(s) == k,
    decreases k,
{
    if k > 0 {
        let rest = s.drop_first();
        assert forall|j: int| 0 <= j < k - 1 && j + 1 < rest.len() implies !(#[trigger] rest[j]
            == '\n' && rest[j + 1] == '\n') by {
            assert(rest[j] == s[j + 1]);
            assert(rest[j + 1] == s[j + 2]);
            assert(!(s[j + 1] == '\n' && s[j + 1 + 1] == '\n'));
        }
        if k - 1 < rest.len() {
            assert(rest[k - 1] == s[k]);
            assert(rest[k] == s[k + 1]);
        }
        lemma_gap_position(rest, k - 1);
        if s.len() >= 2 {
            assert(!(s[0int] == '\n' && s[0int + 1] == '\n'));
        }
    }
}

/// Cuts `s` into its blocks; see [`blocks`].
pub fn split_blocks(s: &[char]) -> (pieces: Vec<Vec<char>>)
    ensures
        texts(pieces@) == blocks(s@),
{
    let len = s.len();
    let mut pieces: Vec<Vec<char>> = Vec::new();
    let mut start: usize = 0;
    let mut i: usize = 0;
    proof {
        assert(s@.skip(0) =~= s@);
        assert(texts(pieces@) + blocks(s@) =~= blocks(s@));
    }
    while i < len
        invariant
            len == s@.len(),
            start <= i <= len,
            forall|j: int|
                start <= j < i && j + 1 < len ==> !(#[trigger] s@[j] == '\n' && s@[j + 1] == '\n'),
            blocks(s@) == texts(pieces@) + blocks(s@.skip(start as int)),
        decreases len - i,
    {
        if i + 1 < len && s[i] == '\n' && s[i + 1] == '\n' {
            proof {
                let rest = s@.skip(start as int);
                assert forall|j: int| 0 <= j < i - start && j + 1 < rest.len() implies !(
                #[trigger] rest[j] == '\n' && rest[j + 1] == '\n') by {
                    assert(rest[j] == s@[start + j]);
                    assert(rest[j + 1] == s@[start + j + 1]);
                    assert(!(s@[start + j] == '\n' && s@[start + j + 1] == '\n'));
                }
                assert(rest[i - start] == s@[i as int]);
                assert(rest[i - start + 1] == s@[i + 1]);
                lemma_gap_position(rest, i - start);
                assert(rest.take(i - start) =~= s@.subrange(start as int, i as int));
                assert(rest.skip(i - start + 2) =~= s@.skip(i + 2));
            }
            if i > start {
                let raw = copy_range(s, start, i);
                let piece = without_outer_newlines(raw.as_slice());
                proof {
                    assert(texts(pieces@.push(piece)) =~= texts(pieces@) + seq![piece@]);
                    assert(texts(pieces@) + (seq![piece@] + blocks(s@.skip(i + 2))) =~= texts(
                        pieces@.push(piece),
                    ) + blocks(s@.skip(i + 2)));
                }
                pieces.push(piece);
            } else {
                proof {
                    assert(Seq::<Seq<char>>::empty() + blocks(s@.skip(i + 2)) =~= blocks(
                        s@.skip(i + 2),
                    ));
                }
            }
            start = i + 2;
            i = i + 2;
        } else {
            i += 1;
        }
    }
    proof {
        let rest = s@.skip(start as int);
        assert forall|j: int| 0 <= j < rest.len() && j + 1 < rest.len() implies !(#[trigger] rest[j]
            == '\n' && rest[j + 1] == '\n') by {
            assert(rest[j] == s@[start + j]);
            assert(rest[j + 1] == s@[start + j + 1]);
            assert(!(s@[start + j] == '\n' && s@[start + j + 1] == '\n'));
        }
        lemma_gap_position(rest, rest.len() as int);
        assert(rest =~= s@.subrange(start as int, len as int));
    }
    if len > start {
        let raw = copy_range(s, start, len);
        let piece = without_outer_newlines(raw.as_slice());
        proof {
            assert(texts(pieces@.push(piece)) =~= texts(pieces@) + seq![piece@]);
        }
        pieces.push(piece);
    } else {
        proof {
            assert(texts(pieces@) + Seq::<Seq<char>>::empty() =~= texts(pieces@));
        }
    }
    pieces
}

/// Whether none of the characters of `s` is one of `delims`.
pub open spec fn free_of(s: Seq<char>, delims: Seq<char>) -> bool {
    forall|i: int| 0 <= i < s.len() ==> !delims.contains(#[trigger] s[i])
}

/// A text without delimiters is one piece.
pub proof fn lemma_split_whole(s: Seq<char>, delims: Seq<char>)
    requires
        free_of(s, delims),
    ensures
        split(s, delims) == seq![s],
{
    lemma_run_length(s, delims, s.len() as int);
}

/// Splitting a text that holds a delimiter gives the pieces of what stands
/// before the delimiter and then the pieces of what stands behind it.
pub proof fn lemma_split_concat(a: Seq<char>, d: char, b: Seq<char>, delims: Seq<char>)
    requires
        delims.contains(d),
    ensures
        split(a + seq![d] + b, delims) == split(a, delims) + split(b, delims),
    decreases a.len(),
{
    let whole = a + seq![d] + b;
    let n = run_length(a, delims);
    lemma_run_length_bound(a, delims);
    assert forall|j: int| 0 <= j < n implies !delims.contains(#[trigger] whole[j]) by {
        lemma_run_length_free(a, delims, j);
        assert(whole[j] == a[j]);
    }
    if n >= a.len() {
        assert(whole[a.len() as int] == d);
        lemma_run_length(whole, delims, a.len() as int);
        assert(whole.take(a.len() as int) =~= a);
        assert(whole.skip(a.len() as int + 1) =~= b);
    } else {
        lemma_run_length_stop(a, delims);
        assert(whole[n as int] == a[n as int]);
        lemma_run_length(whole, delims, n as int);
        assert(whole.take(n as int) =~= a.take(n as int));
        assert(whole.skip(n as int + 1) =~= a.skip(n as int + 1) + seq![d] + b);
        lemma_split_concat(a.skip(n as int + 1), d, b, delims);
        assert(seq![a.take(n as int)] + (split(a.skip(n as int + 1), delims) + split(b, delims))
            =~= seq![a.take(n as int)] + split(a.skip(n as int + 1), delims) + split(b, delims));
    }
}

/// The count of characters before the first delimiter is at most the length.
pub proof fn lemma_run_length_bound(s: Seq<char>, delims: Seq<char>)
    ensures
        run_length(s, delims) <= s.len(),
    decreases s.len(),
{
    if !(s.len() == 0 || delims.contains(s[0])) {
        lemma_run_length_bound(s.drop_first(), delims);
    }
}

/// No character before the first delimiter is a delimiter.
pub proof fn lemma_run_length_free(s: Seq<char>, delims: Seq<char>, j: int)
    requires
        0 <= j < run_length(s, delims),
    ensures
        j < s.len(),
        !delims.contains(s[j]),
    decreases s.len(),
{
    lemma_run_length_bound(s, delims);
    if j > 0 {
        lemma_run_length_free(s.drop_first(), delims, j - 1);
        assert(s.drop_first()[j - 1] == s[j]);
    }
}

/// Where the count stops short of the length, a delimiter stands.
pub proof fn lemma_run_length_stop(s: Seq<char>, delims: Seq<char>)
    requires
        run_length(s, delims) < s.len(),
    ensures
        delims.contains(s[run_length(s, delims) as int]),
    decreases s.len(),
{
    if !(s.len() == 0 || delims.contains(s[0])) {
        lemma_run_length_bound(s.drop_first(), delims);
        lemma_run_length_stop(s.drop_first(), delims);
        assert(s.drop_first()[run_length(s.drop_first(), delims) as int] == s[run_length(
            s,
            delims,
        ) as int]);
    }
}

/// A stretch without delimiters in front of a text joins the first piece of
/// that text.
pub proof fn lemma_split_prefix(h: Seq<char>, b: Seq<char>, delims: Seq<char>)
    requires
        free_of(h, delims),
    ensures
        split(h + b, delims) == split(b, delims).update(0, h + split(b, delims)[0]),
{
    let whole = h + b;
    let n = run_length(b, delims) as int;
    let hl = h.len() as int;
    lemma_run_length_bound(b, delims);
    assert forall|j: int| 0 <= j < hl + n implies !delims.contains(#[trigger] whole[j]) by {
        if j < hl {
            assert(whole[j] == h[j]);
        } else {
            lemma_run_length_free(b, delims, j - hl);
            assert(whole[j] == b[j - hl]);
        }
    }
    if n < b.len() {
        lemma_run_length_stop(b, delims);
        assert(whole[hl + n] == b[n]);
        lemma_run_length(whole, delims, hl + n);
        assert(whole.take(hl + n) =~= h + b.take(n));
        assert(whole.skip(hl + n + 1) =~= b.skip(n + 1));
        assert(split(whole, delims) =~= split(b, delims).update(0, h + split(b, delims)[0]));
    } else {
        lemma_run_length(whole, delims, whole.len() as int);
        assert(split(whole, delims) =~= split(b, delims).update(0, h + split(b, delims)[0]));
    }
}

/// Every piece of a split text is free of delimiters.
pub proof fn law_split_pieces_are_free(s: Seq<char>, delims: Seq<char>, i: int)
    requires
        0 <= i < split(s, delims).len(),
    ensures
        free_of(split(s, delims)[i], delims),
    decreases s.len(),
{
    let n = run_length(s, delims);
    lemma_run_length_bound(s, delims);
    let piece = split(s, delims)[i];
    if i == 0 {
        assert forall|j: int| 0 <= j < piece.len() implies !delims.contains(#[trigger] piece[j]) by {
            lemma_run_length_free(s, delims, j);
        }
    } else {
        law_split_pieces_are_free(s.skip(n as int + 1), delims, i - 1);
    }
}

/// Where a text is found, it stands there and nowhere before; where it is
/// not found, it stands nowhere.
pub proof fn law_first_occurrence_is_first(hay: Seq<char>, needle: Seq<char>, from: int)
    requires
        0 <= from,
    ensures
        match first_occurrence_from(hay, needle, from) {
            Some(at) => from <= at && occurs_at(hay, needle, at) && forall|j: int|
                from <= j < at ==> !occurs_at(hay, needle, j),
            None => forall|j: int| from <= j ==> !occurs_at(hay, needle, j),
        },
    decreases hay.len() - from + 1,
{
    if from + needle.len() <= hay.len() && !occurs_at(hay, needle, from) {
        law_first_occurrence_is_first(hay, needle, from + 1);
    }
}

/// What is left of a text after trimming neither begins nor ends with
/// whitespace, and only whitespace was taken off.
pub proof fn law_trim_is_tight(s: Seq<char>)
    ensures
        trim(s).len() > 0 ==> !is_whitespace(trim(s)[0]) && !is_whitespace(trim(s).last()),
        leading_whitespace(s) + trim(s).len() <= s.len(),
        trim(s) == s.subrange(
            leading_whitespace(s) as int,
            (leading_whitespace(s) + trim(s).len()) as int,
        ),
        forall|i: int|
            0 <= i < leading_whitespace(s) || leading_whitespace(s) + trim(s).len() <= i < s.len()
                ==> is_whitespace(#[trigger] s[i]),
{
    let a = leading_whitespace(s) as int;
    lemma_leading_whitespace(s);
    let rest = s.skip(a);
    let b = trailing_whitespace(rest) as int;
    lemma_trailing_whitespace(rest);
    let t = trim(s);
    assert(t == rest.take(rest.len() - b));
    assert(t =~= s.subrange(a, a + t.len()));
    if t.len() > 0 {
        assert(t[0] == rest[0]);
        assert(t.last() == rest[rest.len() - b - 1]);
        lemma_leading_whitespace(rest);
        assert(leading_whitespace(rest) == 0) by {
            assert(rest[0] == s[a]);
        }
    }
    assert forall|i: int| 0 <= i < a || a + t.len() <= i < s.len() implies is_whitespace(
        #[trigger] s[i],
    ) by {
        if i >= a {
            assert(s[i] == rest[i - a]);
        }
    }
}

/// The whitespace counted at the front is whitespace, and what follows it is
/// none.
pub proof fn lemma_leading_whitespace(s: Seq<char>)
    ensures
        leading_whitespace(s) <= s.len(),
        forall|i: int| 0 <= i < leading_whitespace(s) ==> is_whitespace(#[trigger] s[i]),
        leading_whitespace(s) < s.len() ==> !is_whitespace(s[leading_whitespace(s) as int]),
    decreases s.len(),
{
    if s.len() > 0 && is_whitespace(s[0]) {
        let rest = s.drop_first();
        lemma_leading_whitespace(rest);
        assert forall|i: int| 0 <= i < leading_whitespace(s) implies is_whitespace(
            #[trigger] s[i],
        ) by {
            if i > 0 {
                assert(s[i] == rest[i - 1]);
            }
        }
        if leading_whitespace(s) < s.len() {
            assert(s[leading_whitespace(s) as int] == rest[leading_whitespace(rest) as int]);
        }
    }
}

/// The whitespace counted at the back is whitespace, and what stands before
/// it is none.
pub proof fn lemma_trailing_whitespace(s: Seq<char>)
    ensures
        trailing_whitespace(s) <= s.len(),
        forall|i: int|
            s.len() - trailing_whitespace(s) <= i < s.len() ==> is_whitespace(#[trigger] s[i]),
        trailing_whitespace(s) < s.len() ==> !is_whitespace(
            s[s.len() - trailing_whitespace(s) - 1],
        ),
    decreases s.len(),
{
    if s.len() > 0 && is_whitespace(s.last()) {
        let rest = s.drop_last();
        lemma_trailing_whitespace(rest);
        assert forall|i: int| s.len() - trailing_whitespace(s) <= i < s.len() implies is_whitespace(
            #[trigger] s[i],
        ) by {
            if i < s.len() - 1 {
                assert(s[i] == rest[i]);
            }
        }
        if trailing_whitespace(s) < s.len() {
            assert(s[s.len() - trailing_whitespace(s) - 1] == rest[rest.len() - trailing_whitespace(
                rest,
            ) - 1]);
        }
    }
}

/// A text that neither begins nor ends with whitespace is its own trimmed form.
pub proof fn lemma_trim_tight(w: Seq<char>)
    requires
        w.len() > 0,
        !is_whitespace(w[0]),
        !is_whitespace(w.last()),
    ensures
        trim(w) == w,
{
    assert(w.skip(0) =~= w);
    assert(w.take(w.len() as int) =~= w);
}

/// One space in front of a text that neither begins nor ends with
/// whitespace is trimmed away.
pub proof fn lemma_trim_after_space(w: Seq<char>)
    requires
        w.len() > 0,
        !is_whitespace(w[0]),
        !is_whitespace(w.last()),
    ensures
        trim(seq![' '] + w) == w,
        leading_whitespace(seq![' '] + w) == 1,
{
    let s = seq![' '] + w;
    assert(s.drop_first() =~= w);
    assert(leading_whitespace(w) == 0);
    assert(leading_whitespace(s) == 1);
    assert(s.skip(1) =~= w);
    assert(w.take(w.len() as int) =~= w);
}

/// The decimal form of a number is made of digits only, and its digits write
/// the number.
pub proof fn lemma_decimal(n: nat)
    ensures
        decimal(n).len() > 0,
        all_digits(decimal(n)),
        digits_value(decimal(n)) == n,
    decreases n,
{
    let d = decimal(n);
    if n >= 10 {
        lemma_decimal(n / 10);
        let front = decimal(n / 10);
        assert(d.drop_last() =~= front);
        assert(d.last() == digit_char(n % 10));
        assert(digit_value(digit_char(n % 10)) == Some(n % 10));
        assert forall|i: int| 0 <= i < d.len() implies (#[trigger] digit_value(d[i])) is Some by {
            if i < front.len() {
                assert(d[i] == front[i]);
            }
        }
        assert(digits_value(d) == digits_value(front) * 10 + n % 10);
    } else {
        assert(d.drop_last() =~= Seq::<char>::empty());
        assert(d.last() == digit_char(n));
        assert(digit_value(digit_char(n)) == Some(n));
        assert(digits_value(d.drop_last()) == 0);
    }
}

/// A number that fits the machine word reads back from its decimal form.
pub proof fn lemma_decimal_reads_back(n: usize)
    ensures
        parse_number(decimal(n as nat)) == Some(n),
{
    lemma_decimal(n as nat);
    let d = decimal(n as nat);
    assert(digit_value(d[0]) is Some);
    assert(unsigned_part(d) == d);
}

} // verus!
