use crate::clock::CivilTime;
use vstd::prelude::*;

verus! {

/// The character of a decimal digit.
pub open spec fn digit_char(d: int) -> char {
    if d == 0 {
        '0'
    } else if d == 1 {
        '1'
    } else if d == 2 {
        '2'
    } else if d == 3 {
        '3'
    } else if d == 4 {
        '4'
    } else if d == 5 {
        '5'
    } else if d == 6 {
        '6'
    } else if d == 7 {
        '7'
    } else if d == 8 {
        '8'
    } else {
        '9'
    }
}

/// Decimal form of `n`, without leading zeros.
pub open spec fn decimal(n: nat) -> Seq<char>
    decreases n,
{
    if n < 10 {
        seq![digit_char(n as int)]
    } else {
        decimal(n / 10).push(digit_char((n % 10) as int))
    }
}

/// Two digits, zero-padded.
pub open spec fn pad2(n: int) -> Seq<char> {
    seq![digit_char(n / 10), digit_char(n % 10)]
}

/// Four digits, zero-padded.
pub open spec fn pad4(n: int) -> Seq<char> {
    seq![digit_char(n / 1000), digit_char(n / 100 % 10), digit_char(n / 10 % 10), digit_char(n % 10)]
}

pub open spec fn abs(y: int) -> nat {
    if y < 0 {
        (-y) as nat
    } else {
        y as nat
    }
}

/// ISO 8601 year: four digits within 0..=9999, else a sign and at least four digits.
pub open spec fn year_seq(y: int) -> Seq<char> {
    if 0 <= y <= 9999 {
        pad4(y)
    } else {
        (if y < 0 {
            seq!['-']
        } else {
            seq!['+']
        }) + (if abs(y) <= 9999 {
            pad4(abs(y) as int)
        } else {
            decimal(abs(y))
        })
    }
}

/// `YYYY-MM-DD`.
pub open spec fn date_seq(t: CivilTime) -> Seq<char> {
    year_seq(t.year as int) + seq!['-'] + pad2(t.month as int) + seq!['-'] + pad2(t.day as int)
}

/// `HH:MM:SS`.
pub open spec fn clock_seq(t: CivilTime) -> Seq<char> {
    pad2(t.hour as int) + seq![':'] + pad2(t.minute as int) + seq![':'] + pad2(t.second as int)
}

pub open spec fn archive_suffix() -> Seq<char> {
    seq!['.', 'l', 'o', 'g', '.', 'g', 'z']
}

pub open spec fn log_dir() -> Seq<char> {
    seq!['.', '/', 'l', 'o', 'g', 's', '/']
}

/// `{YYYY-MM-DD}-{n}.log.gz`
pub open spec fn archive_name_seq(t: CivilTime, n: nat) -> Seq<char> {
    date_seq(t) + seq!['-'] + decimal(n) + archive_suffix()
}

pub open spec fn archive_path_seq(t: CivilTime, n: nat) -> Seq<char> {
    log_dir() + archive_name_seq(t, n)
}

pub open spec fn transient_path_seq() -> Seq<char> {
    seq!['.', '/', 'l', 'o', 'g', 's', '/', 'l', 'a', 't', 'e', 's', 't', '-', 't', 'm', 'p', '.', 'l', 'o', 'g']
}

fn digit_str(d: u64) -> (r: &'static str)
    requires
        d < 10,
    ensures
        r@ == seq![digit_char(d as int)],
{
    if d == 0 {
        proof { reveal_strlit("0"); }
        "0"
    } else if d == 1 {
        proof { reveal_strlit("1"); }
        "1"
    } else if d == 2 {
        proof { reveal_strlit("2"); }
        "2"
    } else if d == 3 {
        proof { reveal_strlit("3"); }
        "3"
    } else if d == 4 {
        proof { reveal_strlit("4"); }
        "4"
    } else if d == 5 {
        proof { reveal_strlit("5"); }
        "5"
    } else if d == 6 {
        proof { reveal_strlit("6"); }
        "6"
    } else if d == 7 {
        proof { reveal_strlit("7"); }
        "7"
    } else if d == 8 {
        proof { reveal_strlit("8"); }
        "8"
    } else {
        proof { reveal_strlit("9"); }
        "9"
    }
}

/// Decimal text of `n`, without leading zeros.
pub fn decimal_text(n: u64) -> (r: String)
    ensures
        r@ == decimal(n as nat),
    decreases n,
{
    if n < 10 {
        digit_str(n).to_owned()
    } else {
        let head = decimal_text(n / 10);
        head.concat(digit_str(n % 10))
    }
}

fn pad2_text(n: u32) -> (r: String)
    requires
        n < 100,
    ensures
        r@ == pad2(n as int),
{
    digit_str((n / 10) as u64).to_owned().concat(digit_str((n % 10) as u64))
}

fn pad4_text(n: u64) -> (r: String)
    requires
        n <= 9999,
    ensures
        r@ == pad4(n as int),
{
    let a = digit_str(n / 1000).to_owned();
    let b = a.concat(digit_str(n / 100 % 10));
    let c = b.concat(digit_str(n / 10 % 10));
    c.concat(digit_str(n % 10))
}

fn year_text(y: i32) -> (r: String)
    ensures
        r@ == year_seq(y as int),
{
    if 0 <= y && y <= 9999 {
        pad4_text(y as u64)
    } else {
        let mag: u64 = if y < 0 {
            (-(y as i64)) as u64
        } else {
            y as u64
        };
        let digits = if mag <= 9999 {
            pad4_text(mag)
        } else {
            decimal_text(mag)
        };
        let sign = if y < 0 {
            proof { reveal_strlit("-"); }
            "-"
        } else {
            proof { reveal_strlit("+"); }
            "+"
        };
        sign.to_owned().concat(digits.as_str())
    }
}

/// The calendar date of `t` as `YYYY-MM-DD`.
pub fn date_text(t: &CivilTime) -> (r: String)
    requires
        t.wf(),
    ensures
        r@ == date_seq(*t),
{
    proof { reveal_strlit("-"); }
    let s = year_text(t.year).concat("-");
    let s = s.concat(pad2_text(t.month).as_str());
    let s = s.concat("-");
    s.concat(pad2_text(t.day).as_str())
}

/// The time of day of `t` as `HH:MM:SS`.
pub fn clock_text(t: &CivilTime) -> (r: String)
    requires
        t.wf(),
    ensures
        r@ == clock_seq(*t),
{
    proof { reveal_strlit(":"); }
    let s = pad2_text(t.hour).concat(":");
    let s = s.concat(pad2_text(t.minute).as_str());
    let s = s.concat(":");
    s.concat(pad2_text(t.second).as_str())
}

/// The archive name for rotation number `n` on the date of `t`.
pub fn archive_name(t: &CivilTime, n: u32) -> (r: String)
    requires
        t.wf(),
    ensures
        r@ == archive_name_seq(*t, n as nat),
{
    proof {
        reveal_strlit("-");
        reveal_strlit(".log.gz");
    }
    let s = date_text(t).concat("-");
    let s = s.concat(decimal_text(n as u64).as_str());
    s.concat(".log.gz")
}

/// The archive path, under the log directory, for rotation number `n` on the date of `t`.
pub fn archive_path(t: &CivilTime, n: u32) -> (r: String)
    requires
        t.wf(),
    ensures
        r@ == archive_path_seq(*t, n as nat),
{
    proof { reveal_strlit("./logs/"); }
    "./logs/".to_owned().concat(archive_name(t, n).as_str())
}

/// The fixed path the active file is moved to before it is compressed.
pub fn transient_path() -> (r: String)
    ensures
        r@ == transient_path_seq(),
{
    proof { reveal_strlit("./logs/latest-tmp.log"); }
    "./logs/latest-tmp.log".to_owned()
}


pub open spec fn is_digit(c: char) -> bool {
    '0' <= c && c <= '9'
}

pub open spec fn digit_value(c: char) -> nat {
    (c as u32 - '0' as u32) as nat
}

pub open spec fn all_digits(s: Seq<char>) -> bool {
    forall|i: int| 0 <= i < s.len() ==> is_digit(#[trigger] s[i])
}

/// The number that a run of decimal digits denotes.
pub open spec fn digits_value(s: Seq<char>) -> nat
    decreases s.len(),
{
    if s.len() == 0 {
        0
    } else {
        digits_value(s.drop_last()) * 10 + digit_value(s.last())
    }
}

/// What `str::parse::<u32>` gives: an optional `+`, then one or more decimal
/// digits whose value fits in a `u32`.
pub open spec fn parse_u32(s: Seq<char>) -> Option<u32> {
    let body = if s.len() > 0 && s[0] == '+' {
        s.drop_first()
    } else {
        s
    };
    if body.len() > 0 && all_digits(body) && digits_value(body) <= u32::MAX {
        Some(digits_value(body) as u32)
    } else {
        None
    }
}

/// Position of the first `c` at or after `i`.
pub open spec fn first_pos_from(s: Seq<char>, c: char, i: int) -> Option<int>
    decreases s.len() - i,
{
    if i < 0 || i >= s.len() {
        None
    } else if s[i] == c {
        Some(i)
    } else {
        first_pos_from(s, c, i + 1)
    }
}

/// Position of the last `c` before `i`.
pub open spec fn last_pos_before(s: Seq<char>, c: char, i: int) -> Option<int>
    decreases i,
{
    if i <= 0 || i > s.len() {
        None
    } else if s[i - 1] == c {
        Some(i - 1)
    } else {
        last_pos_before(s, c, i - 1)
    }
}

/// The index of an archive name: the text between the last `-` and the first
/// `.`, read as a `u32`. None for any name not of that shape.
pub open spec fn index_of_name(s: Seq<char>) -> Option<u32> {
    match (last_pos_before(s, '-', s.len() as int), first_pos_from(s, '.', 0)) {
        (Some(dash), Some(dot)) => if dash + 1 < dot {
            parse_u32(s.subrange(dash + 1, dot))
        } else {
            None
        },
        _ => None,
    }
}

/// Relies on `str::chars`, collected into a `Vec`: the characters of `s` in order.
#[verifier::external_body]
pub(crate) fn chars_of(s: &str) -> (r: Vec<char>)
    ensures
        r@ == s@,
{
    s.chars().collect()
}

proof fn lemma_digits_value_grows(s: Seq<char>, i: int)
    requires
        0 <= i <= s.len(),
    ensures
        digits_value(s.subrange(0, i)) <= digits_value(s),
    decreases s.len() - i,
{
    if i < s.len() {
        lemma_digits_value_grows(s, i + 1);
        assert(s.subrange(0, i + 1).drop_last() =~= s.subrange(0, i));
    } else {
        assert(s.subrange(0, i) =~= s);
    }
}

/// Reads `s[lo..hi]` as `str::parse::<u32>` would.
fn parse_u32_range(s: &Vec<char>, lo: usize, hi: usize) -> (r: Option<u32>)
    requires
        lo <= hi <= s@.len(),
    ensures
        r == parse_u32(s@.subrange(lo as int, hi as int)),
{
    let ghost whole = s@.subrange(lo as int, hi as int);
    let mut start = lo;
    if lo < hi && s[lo] == '+' {
        start = lo + 1;
    }
    let ghost body = s@.subrange(start as int, hi as int);
    assert(body =~= (if whole.len() > 0 && whole[0] == '+' { whole.drop_first() } else { whole }));
    if start == hi {
        return None;
    }
    let mut acc: u64 = 0;
    let mut i = start;
    while i < hi
        invariant
            lo <= start <= i <= hi <= s@.len(),
            start < hi,
            whole == s@.subrange(lo as int, hi as int),
            body == s@.subrange(start as int, hi as int),
            body =~= (if whole.len() > 0 && whole[0] == '+' { whole.drop_first() } else { whole }),
            acc == digits_value(s@.subrange(start as int, i as int)),
            acc <= u32::MAX,
            forall|j: int| start <= j < i ==> is_digit(#[trigger] s@[j]),
        decreases hi - i,
    {
        let c = s[i];
        if !('0' <= c && c <= '9') {
            assert(body[i - start] == c);
            assert(!is_digit(body[i - start]));
            return None;
        }
        let ghost prev = s@.subrange(start as int, i as int);
        assert(s@.subrange(start as int, i + 1).drop_last() =~= prev);
        acc = acc * 10 + (c as u32 - '0' as u32) as u64;
        i = i + 1;
        if acc > u32::MAX as u64 {
            proof {
                assert(s@.subrange(start as int, i as int) =~= body.subrange(0, i - start));
                lemma_digits_value_grows(body, i - start);
            }
            return None;
        }
    }
    assert(s@.subrange(start as int, i as int) =~= body);
    assert(all_digits(body)) by {
        assert forall|j: int| 0 <= j < body.len() implies is_digit(#[trigger] body[j]) by {
            assert(body[j] == s@[start + j]);
        }
    }
    Some(acc as u32)
}

/// The index that an archive file name carries: the text between its last `-`
/// and its first `.`, read as an unsigned integer. None where there is no such
/// text or it is no `u32`.
pub fn index_from_path(path: &str) -> (r: Option<u32>)
    ensures
        r == index_of_name(path@),
{
    index_of_chars(&chars_of(path))
}

/// `index_from_path` on a name given as characters.
pub fn index_of_chars(s: &Vec<char>) -> (r: Option<u32>)
    ensures
        r == index_of_name(s@),
{
    let n = s.len();
    let mut i = n;
    while i > 0 && s[i - 1] != '-'
        invariant
            i <= n == s@.len(),
            last_pos_before(s@, '-', n as int) == last_pos_before(s@, '-', i as int),
        decreases i,
    {
        i = i - 1;
    }
    if i == 0 {
        return None;
    }
    let dash = i - 1;
    let mut j: usize = 0;
    while j < n && s[j] != '.'
        invariant
            j <= n == s@.len(),
            first_pos_from(s@, '.', 0) == first_pos_from(s@, '.', j as int),
        decreases n - j,
    {
        j = j + 1;
    }
    if j == n {
        return None;
    }
    let dot = j;
    if dash + 1 < dot {
        parse_u32_range(&s, dash + 1, dot)
    } else {
        None
    }
}

/// The characters of `s` from position `from` on.
pub fn tail_of(s: &Vec<char>, from: usize) -> (r: Vec<char>)
    requires
        from <= s@.len(),
    ensures
        r@ == s@.subrange(from as int, s@.len() as int),
{
    let mut r: Vec<char> = Vec::new();
    let mut i = from;
    while i < s.len()
        invariant
            from <= i <= s@.len(),
            r@ == s@.subrange(from as int, i as int),
        decreases s@.len() - i,
    {
        r.push(s[i]);
        i = i + 1;
        assert(r@ =~= s@.subrange(from as int, i as int));
    }
    r
}

/// Whether `p` is a prefix of `s`.
pub fn has_prefix(s: &Vec<char>, p: &Vec<char>) -> (r: bool)
    ensures
        r == p@.is_prefix_of(s@),
{
    if p.len() > s.len() {
        return false;
    }
    let mut i: usize = 0;
    while i < p.len()
        invariant
            i <= p@.len() <= s@.len(),
            forall|j: int| 0 <= j < i ==> p@[j] == s@[j],
        decreases p@.len() - i,
    {
        if p[i] != s[i] {
            assert(s@.subrange(0, p@.len() as int)[i as int] != p@[i as int]);
            return false;
        }
        i = i + 1;
    }
    assert(p@ =~= s@.subrange(0, p@.len() as int));
    true
}


proof fn lemma_digit_char(d: int)
    ensures
        is_digit(digit_char(d)),
        0 <= d < 10 ==> digit_value(digit_char(d)) == d,
{
}

proof fn lemma_decimal(n: nat)
    ensures
        decimal(n).len() >= 1,
        all_digits(decimal(n)),
        digits_value(decimal(n)) == n,
    decreases n,
{
    lemma_digit_char((n % 10) as int);
    if n >= 10 {
        lemma_decimal(n / 10);
        let d = decimal(n);
        assert(d.drop_last() =~= decimal(n / 10));
        assert(d.last() == digit_char((n % 10) as int));
        assert(n == (n / 10) * 10 + n % 10) by (nonlinear_arith);
        assert(digit_value(d.last()) == n % 10);
        assert(digits_value(d.drop_last()) == n / 10);
        assert(digits_value(d) == digits_value(d.drop_last()) * 10 + digit_value(d.last()));
        assert forall|i: int| 0 <= i < d.len() implies is_digit(#[trigger] d[i]) by {
            if i < d.len() - 1 {
                assert(d[i] == decimal(n / 10)[i]);
            }
        }
    } else {
        lemma_digit_char(n as int);
        let d = decimal(n);
        assert(d.drop_last() =~= Seq::<char>::empty());
        assert(digits_value(d.drop_last()) == 0);
        assert(d.last() == digit_char(n as int));
        assert(digit_value(d.last()) == n);
        assert(digits_value(d) == digits_value(d.drop_last()) * 10 + digit_value(d.last()));
    }
}

proof fn lemma_pad_digits(n: int)
    ensures
        all_digits(pad2(n)),
        all_digits(pad4(n)),
{
    lemma_digit_char(n / 10);
    lemma_digit_char(n % 10);
    lemma_digit_char(n / 1000);
    lemma_digit_char(n / 100 % 10);
    lemma_digit_char(n / 10 % 10);
    assert forall|i: int| 0 <= i < pad2(n).len() implies is_digit(#[trigger] pad2(n)[i]) by {}
    assert forall|i: int| 0 <= i < pad4(n).len() implies is_digit(#[trigger] pad4(n)[i]) by {}
}

proof fn lemma_no_dot_in_date(t: CivilTime)
    ensures
        forall|k: int| 0 <= k < date_seq(t).len() ==> #[trigger] date_seq(t)[k] != '.',
{
    let y = year_seq(t.year as int);
    lemma_pad_digits(t.year as int);
    lemma_pad_digits(abs(t.year as int) as int);
    lemma_pad_digits(t.month as int);
    lemma_pad_digits(t.day as int);
    lemma_decimal(abs(t.year as int));
    assert forall|k: int| 0 <= k < y.len() implies #[trigger] y[k] != '.' by {
        if !(0 <= t.year <= 9999) {
            let tail = if abs(t.year as int) <= 9999 {
                pad4(abs(t.year as int) as int)
            } else {
                decimal(abs(t.year as int))
            };
            if k > 0 {
                assert(y[k] == tail[k - 1]);
                assert(is_digit(tail[k - 1]));
            }
        } else {
            assert(is_digit(pad4(t.year as int)[k]));
        }
    }
    let m = pad2(t.month as int);
    let d = pad2(t.day as int);
    assert forall|k: int| 0 <= k < date_seq(t).len() implies #[trigger] date_seq(t)[k] != '.' by {
        let ds = date_seq(t);
        if k < y.len() {
            assert(ds[k] == y[k]);
        } else if k == y.len() || k == y.len() + 3 {
        } else if k < y.len() + 3 {
            assert(ds[k] == m[k - y.len() - 1]);
            assert(is_digit(m[k - y.len() - 1]));
        } else {
            assert(ds[k] == d[k - y.len() - 4]);
            assert(is_digit(d[k - y.len() - 4]));
        }
    }
}

proof fn lemma_last_pos_skip(s: Seq<char>, c: char, i: int, j: int)
    requires
        0 <= i <= j <= s.len(),
        forall|k: int| i <= k < j ==> s[k] != c,
    ensures
        last_pos_before(s, c, j) == last_pos_before(s, c, i),
    decreases j - i,
{
    if i < j {
        lemma_last_pos_skip(s, c, i, j - 1);
    }
}

proof fn lemma_first_pos_skip(s: Seq<char>, c: char, i: int, j: int)
    requires
        0 <= i <= j <= s.len(),
        forall|k: int| i <= k < j ==> s[k] != c,
    ensures
        first_pos_from(s, c, i) == first_pos_from(s, c, j),
    decreases j - i,
{
    if i < j {
        lemma_first_pos_skip(s, c, i + 1, j);
    }
}

proof fn lemma_tagged_index(a: Seq<char>, n: u32)
    requires
        forall|k: int| 0 <= k < a.len() ==> #[trigger] a[k] != '.',
    ensures
        index_of_name(a + seq!['-'] + decimal(n as nat) + archive_suffix()) == Some(n),
{
    let d = decimal(n as nat);
    let name = a + seq!['-'] + d + archive_suffix();
    let dash = a.len() as int;
    let dot = dash + 1 + d.len();
    lemma_decimal(n as nat);
    assert forall|k: int| dash + 1 <= k < name.len() implies name[k] != '-' by {
        if k < dot {
            assert(name[k] == d[k - dash - 1]);
            assert(is_digit(d[k - dash - 1]));
        }
    }
    lemma_last_pos_skip(name, '-', dash + 1, name.len() as int);
    assert forall|k: int| 0 <= k < dot implies name[k] != '.' by {
        if k < dash {
            assert(name[k] == a[k]);
        } else if k > dash {
            assert(name[k] == d[k - dash - 1]);
            assert(is_digit(d[k - dash - 1]));
        }
    }
    lemma_first_pos_skip(name, '.', 0, dot);
    assert(name.subrange(dash + 1, dot) =~= d);
    assert(is_digit(d[0]));
}

/// An archive name written for a date starts with that date; reading the index
/// of the whole name, or of what follows the date, gives the number it was
/// written with.
pub proof fn lemma_archive_name_index(t: CivilTime, n: u32)
    ensures
        date_seq(t).is_prefix_of(archive_name_seq(t, n as nat)),
        index_of_name(archive_name_seq(t, n as nat)) == Some(n),
        index_of_name(
            archive_name_seq(t, n as nat).subrange(
                date_seq(t).len() as int,
                archive_name_seq(t, n as nat).len() as int,
            ),
        ) == Some(n),
{
    let a = date_seq(t);
    let name = archive_name_seq(t, n as nat);
    let rest = seq!['-'] + decimal(n as nat) + archive_suffix();
    lemma_no_dot_in_date(t);
    assert(name =~= a + seq!['-'] + decimal(n as nat) + archive_suffix());
    assert(name.subrange(0, a.len() as int) =~= a);
    lemma_tagged_index(a, n);
    assert(name.subrange(a.len() as int, name.len() as int) =~= Seq::<char>::empty() + seq!['-']
        + decimal(n as nat) + archive_suffix());
    lemma_tagged_index(Seq::<char>::empty(), n);
}

} // verus!
