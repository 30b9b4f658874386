use vstd::prelude::*;
use crate::triangle::Point;

verus! {

/// The input is not of the form `(x, y)` with two decimal `u32`s.
#[derive(Clone, Copy, Debug, PartialEq, Eq, Structural)]
pub struct ParseVertexError;

/// The characters that `char::is_whitespace` accepts (Unicode White_Space).
pub open spec fn is_space(c: char) -> bool {
    let n = c as u32;
    ||| 0x09 <= n <= 0x0d
    ||| n == 0x20
    ||| n == 0x85
    ||| n == 0xa0
    ||| n == 0x1680
    ||| 0x2000 <= n <= 0x200a
    ||| n == 0x2028
    ||| n == 0x2029
    ||| n == 0x202f
    ||| n == 0x205f
    ||| n == 0x3000
}

pub open spec fn trim_start(s: Seq<char>) -> Seq<char>
    decreases s.len(),
{
    if s.len() > 0 && is_space(s[0]) {
        trim_start(s.drop_first())
    } else {
        s
    }
}

pub open spec fn trim_end(s: Seq<char>) -> Seq<char>
    decreases s.len(),
{
    if s.len() > 0 && is_space(s.last()) {
        trim_end(s.drop_last())
    } else {
        s
    }
}

/// `s` without leading and trailing white space.
pub open spec fn trim(s: Seq<char>) -> Seq<char> {
    trim_end(trim_start(s))
}

pub open spec fn is_digit(c: char) -> bool {
    '0' <= c <= '9'
}

pub open spec fn all_digits(s: Seq<char>) -> bool {
    forall|i: int| 0 <= i < s.len() ==> #[trigger] is_digit(s[i])
}

/// The number that a string of decimal digits spells.
pub open spec fn digits_value(s: Seq<char>) -> nat
    decreases s.len(),
{
    if s.len() == 0 {
        0
    } else {
        digits_value(s.drop_last()) * 10 + (s.last() as u32 - '0' as u32) as nat
    }
}

/// A `u32` in decimal: an optional `+`, then at least one digit, with a
/// value that fits.
pub open spec fn parse_u32_spec(s: Seq<char>) -> Option<u32> {
    let digits = if s.len() > 0 && s[0] == '+' {
        s.drop_first()
    } else {
        s
    };
    if digits.len() > 0 && all_digits(digits) && digits_value(digits) <= u32::MAX {
        Some(digits_value(digits) as u32)
    } else {
        None
    }
}

/// The first position of `c` in `s`, if any.
pub open spec fn first_index(s: Seq<char>, c: char) -> Option<int> {
    if exists|i: int| 0 <= i < s.len() && s[i] == c {
        Some(
            choose|i: int|
                0 <= i < s.len() && s[i] == c && forall|j: int| 0 <= j < i ==> s[j] != c,
        )
    } else {
        None
    }
}

/// A vertex written `(x, y)`: parentheses around two `u32`s split at the
/// first comma, with white space allowed around each number.
pub open spec fn parse_point_spec(s: Seq<char>) -> Option<Point> {
    if s.len() >= 2 && s[0] == '(' && s.last() == ')' {
        let inner = s.subrange(1, s.len() - 1);
        match first_index(inner, ',') {
            Some(i) => match (
                parse_u32_spec(trim(inner.subrange(0, i))),
                parse_u32_spec(trim(inner.subrange(i + 1, inner.len() as int))),
            ) {
                (Some(x), Some(y)) => Some(Point { x, y }),
                _ => None,
            },
            None => None,
        }
    } else {
        None
    }
}

proof fn lemma_value_prefix(s: Seq<char>, k: int)
    requires
        0 <= k <= s.len(),
        all_digits(s),
    ensures
        digits_value(s) >= digits_value(s.subrange(0, k)),
    decreases s.len(),
{
    if k == s.len() {
        assert(s.subrange(0, k) =~= s);
    } else {
        let t = s.drop_last();
        assert(t.subrange(0, k) =~= s.subrange(0, k));
        lemma_value_prefix(t, k);
    }
}

fn chars_of(s: &str) -> (v: Vec<char>)
    ensures
        v@ == s@,
{
    let n = s.unicode_len();
    let mut v: Vec<char> = Vec::new();
    let mut i: usize = 0;
    while i < n
        invariant
            n == s@.len(),
            i <= n,
            v@ == s@.subrange(0, i as int),
        decreases n - i,
    {
        v.push(s.get_char(i));
        i = i + 1;
        assert(v@ =~= s@.subrange(0, i as int));
    }
    assert(v@ =~= s@);
    v
}

fn is_space_char(c: char) -> (r: bool)
    ensures
        r == is_space(c),
{
    let n = c as u32;
    (0x09 <= n && n <= 0x0d) || n == 0x20 || n == 0x85 || n == 0xa0 || n == 0x1680 || (0x2000 <= n
        && n <= 0x200a) || n == 0x2028 || n == 0x2029 || n == 0x202f || n == 0x205f || n == 0x3000
}

/// The bounds of `v[lo..hi]` without its leading and trailing white space.
fn trim_range(v: &Vec<char>, lo: usize, hi: usize) -> (r: (usize, usize))
    requires
        lo <= hi <= v@.len(),
    ensures
        lo <= r.0 <= r.1 <= hi,
        v@.subrange(r.0 as int, r.1 as int) == trim(v@.subrange(lo as int, hi as int)),
{
    let mut a: usize = lo;
    while a < hi && is_space_char(v[a])
        invariant
            lo <= a <= hi <= v@.len(),
            trim_start(v@.subrange(lo as int, hi as int)) == trim_start(v@.subrange(a as int, hi as int)),
        decreases hi - a,
    {
        assert(v@.subrange(a as int, hi as int).drop_first() =~= v@.subrange(a + 1, hi as int));
        a = a + 1;
    }
    let mut b: usize = hi;
    while b > a && is_space_char(v[b - 1])
        invariant
            a <= b <= hi <= v@.len(),
            trim_end(v@.subrange(a as int, hi as int)) == trim_end(v@.subrange(a as int, b as int)),
        decreases b - a,
    {
        assert(v@.subrange(a as int, b as int).drop_last() =~= v@.subrange(a as int, b - 1));
        b = b - 1;
    }
    (a, b)
}

/// Reads `v[lo..hi]` as a `u32` in decimal.
fn parse_u32_range(v: &Vec<char>, lo: usize, hi: usize) -> (r: Option<u32>)
    requires
        lo <= hi <= v@.len(),
    ensures
        r == parse_u32_spec(v@.subrange(lo as int, hi as int)),
{
    let ghost s = v@.subrange(lo as int, hi as int);
    let mut start: usize = lo;
    if lo < hi && v[lo] == '+' {
        start = lo + 1;
    }
    let ghost digits = v@.subrange(start as int, hi as int);
    assert(digits =~= if s.len() > 0 && s[0] == '+' { s.drop_first() } else { s });
    if start == hi {
        return None;
    }
    let mut acc: u64 = 0;
    let mut i: usize = start;
    while i < hi
        invariant
            start <= i <= hi <= v@.len(),
            digits == v@.subrange(start as int, hi as int),
            digits.len() > 0,
            parse_u32_spec(v@.subrange(lo as int, hi as int)) == (if all_digits(digits)
                && digits_value(digits) <= u32::MAX {
                Some(digits_value(digits) as u32)
            } else {
                None
            }),
            all_digits(v@.subrange(start as int, i as int)),
            acc == digits_value(v@.subrange(start as int, i as int)),
            acc <= u32::MAX,
        decreases hi - i,
    {
        let c = v[i];
        if !('0' <= c && c <= '9') {
            assert(!is_digit(digits[i - start]));
            assert(!all_digits(digits));
            return None;
        }
        let d = (c as u32 - '0' as u32) as u64;
        let ghost next = v@.subrange(start as int, i + 1);
        assert(next.drop_last() =~= v@.subrange(start as int, i as int));
        assert(next.last() == c);
        assert(digits_value(next) == acc * 10 + d);
        if acc * 10 + d > u32::MAX as u64 {
            proof {
                if all_digits(digits) {
                    assert(digits.subrange(0, i + 1 - start) =~= next);
                    lemma_value_prefix(digits, i + 1 - start);
                    assert(digits_value(digits) > u32::MAX);
                }
            }
            return None;
        }
        acc = acc * 10 + d;
        i = i + 1;
    }
    assert(v@.subrange(start as int, i as int) =~= digits);
    Some(acc as u32)
}

impl Point {
    /// Reads a vertex written `(x, y)`.
    pub fn parse(s: &str) -> (r: Result<Point, ParseVertexError>)
        ensures
            r is Ok <==> parse_point_spec(s@) is Some,
            r is Ok ==> parse_point_spec(s@) == Some(r->Ok_0),
    {
        let v = chars_of(s);
        let n = v.len();
        if n < 2 || v[0] != '(' || v[n - 1] != ')' {
            return Err(ParseVertexError);
        }
        let ghost inner = v@.subrange(1, n - 1);
        let mut comma: usize = 1;
        while comma < n - 1 && v[comma] != ','
            invariant
                1 <= comma <= n - 1,
                n == v@.len(),
                inner == v@.subrange(1, n - 1),
                forall|j: int| 0 <= j < comma - 1 ==> inner[j] != ',',
            decreases n - 1 - comma,
        {
            comma = comma + 1;
        }
        if comma == n - 1 {
            assert(!exists|i: int| 0 <= i < inner.len() && inner[i] == ',');
            return Err(ParseVertexError);
        }
        proof {
            let k = comma - 1;
            assert(inner[k] == ',');
            let c = choose|i: int|
                0 <= i < inner.len() && inner[i] == ',' && forall|j: int| 0 <= j < i ==> inner[j] != ',';
            assert(c == k) by {
                if c < k {
                    assert(inner[c] != ',');
                }
                if c > k {
                    assert(inner[k] != ',');
                }
            }
            assert(inner.subrange(0, k) =~= v@.subrange(1, comma as int));
            assert(inner.subrange(k + 1, inner.len() as int) =~= v@.subrange(comma + 1, n - 1));
        }
        let (xa, xb) = trim_range(&v, 1, comma);
        let (ya, yb) = trim_range(&v, comma + 1, n - 1);
        let x = parse_u32_range(&v, xa, xb);
        let y = parse_u32_range(&v, ya, yb);
        match (x, y) {
            (Some(x), Some(y)) => Ok(Point { x, y }),
            _ => Err(ParseVertexError),
        }
    }
}

impl std::str::FromStr for Point {
    type Err = ParseVertexError;

    fn from_str(s: &str) -> Result<Point, ParseVertexError> {
        Point::parse(s)
    }
}

/// Reads a vertex written `(x, y)`, with a message for the user when the
/// input is not of that form.
pub fn parse_vertex(s: &str) -> (r: Result<Point, String>)
    ensures
        r is Ok <==> parse_point_spec(s@) is Some,
        r is Ok ==> parse_point_spec(s@) == Some(r->Ok_0),
        r is Err ==> r->Err_0@ == VERTEX_FORMAT_MESSAGE@,
{
    match Point::parse(s) {
        Ok(p) => Ok(p),
        Err(_) => Err(String::from_str(VERTEX_FORMAT_MESSAGE)),
    }
}

pub const VERTEX_FORMAT_MESSAGE: &'static str = "Could not parse into vertex. Should be in the form `(x, y)";

/// The decimal digits of `n`, without leading zeros.
pub open spec fn decimal(n: nat) -> Seq<char>
    decreases n,
{
    if n < 10 {
        seq![digit_char(n)]
    } else {
        decimal(n / 10) + seq![digit_char(n % 10)]
    }
}

pub open spec fn digit_char(d: nat) -> char {
    if d == 0 { '0' } else if d == 1 { '1' } else if d == 2 { '2' } else if d == 3 { '3' }
    else if d == 4 { '4' } else if d == 5 { '5' } else if d == 6 { '6' } else if d == 7 { '7' }
    else if d == 8 { '8' } else { '9' }
}

fn digit_str(d: u32) -> (s: &'static str)
    requires
        d < 10,
    ensures
        s@ == seq![digit_char(d as nat)],
{
    proof {
        reveal_strlit("0");
        reveal_strlit("1");
        reveal_strlit("2");
        reveal_strlit("3");
        reveal_strlit("4");
        reveal_strlit("5");
        reveal_strlit("6");
        reveal_strlit("7");
        reveal_strlit("8");
        reveal_strlit("9");
    }
    let s = if d == 0 { "0" } else if d == 1 { "1" } else if d == 2 { "2" } else if d == 3 { "3" }
    else if d == 4 { "4" } else if d == 5 { "5" } else if d == 6 { "6" } else if d == 7 { "7" }
    else if d == 8 { "8" } else { "9" };
    assert(s@ =~= seq![digit_char(d as nat)]);
    s
}

/// Appends the decimal digits of `n` to `out`.
fn push_decimal(out: &mut String, n: u32)
    ensures
        final(out)@ == old(out)@ + decimal(n as nat),
    decreases n,
{
    if n >= 10 {
        push_decimal(out, n / 10);
    }
    out.append(digit_str(n % 10));
    assert(final(out)@ =~= old(out)@ + decimal(n as nat));
}

/// The options of one run: where to write the image, its size and the
/// triangle's vertices.
pub struct Config {
    pub filename: String,
    pub width: u32,
    pub height: u32,
    pub vertex_1: Point,
    pub vertex_2: Point,
    pub vertex_3: Point,
}

pub const X_MESSAGE_START: &'static str = "Given x: ";
pub const X_MESSAGE_MIDDLE: &'static str = " is greater than the image height: ";
pub const Y_MESSAGE_START: &'static str = "Given y: ";
pub const Y_MESSAGE_MIDDLE: &'static str = " is greater than the image height: ";

/// Why `v` is no pixel of a `width` by `height` image, if it is not: the
/// column is checked first, and the message names the largest allowed one.
/// Both messages call that bound the image height.
pub open spec fn vertex_error(v: Point, width: u32, height: u32) -> Option<Seq<char>> {
    if v.x >= width {
        Some(X_MESSAGE_START@ + decimal(v.x as nat) + X_MESSAGE_MIDDLE@ + decimal((width - 1) as nat))
    } else if v.y >= height {
        Some(Y_MESSAGE_START@ + decimal(v.y as nat) + Y_MESSAGE_MIDDLE@ + decimal((height - 1) as nat))
    } else {
        None
    }
}

impl Config {
    /// The first vertex that lies outside the image, in order, and why.
    pub open spec fn error_spec(self) -> Option<Seq<char>> {
        let e1 = vertex_error(self.vertex_1, self.width, self.height);
        let e2 = vertex_error(self.vertex_2, self.width, self.height);
        let e3 = vertex_error(self.vertex_3, self.width, self.height);
        if e1 is Some { e1 } else if e2 is Some { e2 } else { e3 }
    }

    /// Checks that every vertex is a pixel of the image.
    pub fn validate(&self) -> (r: Result<(), String>)
        requires
            self.width > 0,
            self.height > 0,
        ensures
            r is Ok <==> self.error_spec() is None,
            r is Err ==> self.error_spec() == Some(r->Err_0@),
    {
        check_vertex(&self.vertex_1, self.width, self.height)?;
        check_vertex(&self.vertex_2, self.width, self.height)?;
        check_vertex(&self.vertex_3, self.width, self.height)?;
        Ok(())
    }
}

fn check_vertex(v: &Point, width: u32, height: u32) -> (r: Result<(), String>)
    requires
        width > 0,
        height > 0,
    ensures
        r is Ok <==> vertex_error(*v, width, height) is None,
        r is Err ==> vertex_error(*v, width, height) == Some(r->Err_0@),
{
    if v.x >= width {
        let mut m = String::from_str(X_MESSAGE_START);
        push_decimal(&mut m, v.x);
        m.append(X_MESSAGE_MIDDLE);
        push_decimal(&mut m, width - 1);
        Err(m)
    } else if v.y >= height {
        let mut m = String::from_str(Y_MESSAGE_START);
        push_decimal(&mut m, v.y);
        m.append(Y_MESSAGE_MIDDLE);
        push_decimal(&mut m, height - 1);
        Err(m)
    } else {
        Ok(())
    }
}

} // verus!
