//! The workload file format: one operation per line, as words separated by
//! spaces. Generation writes these lines and execution reads them back.
use vstd::prelude::*;
use vstd::utf8::{valid_utf8, pop_first_scalar, valid_first_scalar};

verus! {

/// Which statistics a stat flush line refers to.
#[derive(Clone, Copy, Debug, PartialEq, Eq, Structural)]
pub enum BenchmarkerType {
    Overall,
    Section,
    Group,
}

/// One operation of a workload file.
#[derive(Clone, Debug, PartialEq, Eq)]
pub enum Command {
    Insert { key: Vec<u8>, value: Vec<u8> },
    Update { key: Vec<u8>, value: Vec<u8> },
    Merge { key: Vec<u8>, value: Vec<u8> },
    PointDelete { key: Vec<u8> },
    PointQuery { key: Vec<u8> },
    RangeQuery { start_key: Vec<u8>, end_key: Vec<u8> },
    RangeQueryCount { start_key: Vec<u8>, count: usize },
    RangeDelete { start_key: Vec<u8>, end_key: Vec<u8> },
    RangeDeleteCount { start_key: Vec<u8>, count: usize },
    StartStatFlush { benchmarker: BenchmarkerType },
    EndStatFlush { benchmarker: BenchmarkerType, name: Vec<u8> },
}

/// A [`Command`] with its byte strings as sequences.
pub enum CommandView {
    Insert { key: Seq<u8>, value: Seq<u8> },
    Update { key: Seq<u8>, value: Seq<u8> },
    Merge { key: Seq<u8>, value: Seq<u8> },
    PointDelete { key: Seq<u8> },
    PointQuery { key: Seq<u8> },
    RangeQuery { start_key: Seq<u8>, end_key: Seq<u8> },
    RangeQueryCount { start_key: Seq<u8>, count: usize },
    RangeDelete { start_key: Seq<u8>, end_key: Seq<u8> },
    RangeDeleteCount { start_key: Seq<u8>, count: usize },
    StartStatFlush { benchmarker: BenchmarkerType },
    EndStatFlush { benchmarker: BenchmarkerType, name: Seq<u8> },
}

impl View for Command {
    type V = CommandView;

    open spec fn view(&self) -> CommandView {
        match self {
            Command::Insert { key, value } => CommandView::Insert { key: key@, value: value@ },
            Command::Update { key, value } => CommandView::Update { key: key@, value: value@ },
            Command::Merge { key, value } => CommandView::Merge { key: key@, value: value@ },
            Command::PointDelete { key } => CommandView::PointDelete { key: key@ },
            Command::PointQuery { key } => CommandView::PointQuery { key: key@ },
            Command::RangeQuery { start_key, end_key } => CommandView::RangeQuery {
                start_key: start_key@,
                end_key: end_key@,
            },
            Command::RangeQueryCount { start_key, count } => CommandView::RangeQueryCount {
                start_key: start_key@,
                count: *count,
            },
            Command::RangeDelete { start_key, end_key } => CommandView::RangeDelete {
                start_key: start_key@,
                end_key: end_key@,
            },
            Command::RangeDeleteCount { start_key, count } => CommandView::RangeDeleteCount {
                start_key: start_key@,
                count: *count,
            },
            Command::StartStatFlush { benchmarker } => CommandView::StartStatFlush {
                benchmarker: *benchmarker,
            },
            Command::EndStatFlush { benchmarker, name } => CommandView::EndStatFlush {
                benchmarker: *benchmarker,
                name: name@,
            },
        }
    }
}

/// Why a line of a workload file could not be read.
#[derive(Clone, Copy, Debug, PartialEq, Eq, Structural)]
pub enum ParseError {
    /// A word that the operation needs is missing.
    MissingArgument,
    /// The first word names no operation.
    UnknownOperation,
    /// A stat flush names no statistics.
    UnknownBenchmarkerType,
    /// A word that must be text is not UTF-8.
    InvalidUtf8,
    /// A count is not a decimal number that fits in `usize`.
    InvalidCount,
}

pub open spec fn space() -> u8 {
    32u8
}

pub open spec fn newline() -> u8 {
    10u8
}

pub open spec fn carriage_return() -> u8 {
    13u8
}

// ---------------------------------------------------------------------------
// Decimal numbers

pub open spec fn is_digit(b: u8) -> bool {
    48 <= b <= 57
}

pub open spec fn all_digits(s: Seq<u8>) -> bool {
    forall|i: int| 0 <= i < s.len() ==> is_digit(#[trigger] s[i])
}

/// The value of a string of decimal digits.
pub open spec fn digits_value(s: Seq<u8>) -> nat
    decreases s.len(),
{
    if s.len() == 0 {
        0
    } else {
        digits_value(s.drop_last()) * 10 + (s.last() - 48) as nat
    }
}

/// The shortest decimal digits of `n`.
pub open spec fn decimal(n: nat) -> Seq<u8>
    decreases n,
{
    if n < 10 {
        seq![(48 + n) as u8]
    } else {
        decimal(n / 10).push((48 + n % 10) as u8)
    }
}

pub proof fn lemma_decimal(n: nat)
    ensures
        decimal(n).len() > 0,
        all_digits(decimal(n)),
        digits_value(decimal(n)) == n,
        decimal(n)[0] != 43,
    decreases n,
{
    if n >= 10 {
        lemma_decimal(n / 10);
        let d = decimal(n / 10);
        assert(d.push((48 + n % 10) as u8).drop_last() =~= d);
        assert(n == (n / 10) * 10 + n % 10);
        assert(((48 + n % 10) as u8 - 48) as nat == n % 10);
        assert(digits_value(d.push((48 + n % 10) as u8)) == digits_value(d) * 10 + n % 10);
        assert(decimal(n) == d.push((48 + n % 10) as u8));
        assert(digits_value(d) == n / 10);
        assert(digits_value(decimal(n)) == (n / 10) * 10 + n % 10);
        assert(d.push((48 + n % 10) as u8)[0] == d[0]);
    } else {
        let d = seq![(48 + n) as u8];
        assert(d.drop_last() =~= Seq::<u8>::empty());
        assert(d.last() == (48 + n) as u8);
        assert(decimal(n) == d);
        assert(((48 + n) as u8) == 48 + n);
        assert(digits_value(d) == digits_value(d.drop_last()) * 10 + (d.last() - 48) as nat);
        assert(digits_value(d.drop_last()) == 0);
    }
}

/// Appends the decimal digits of `n` to `out`.
pub fn push_decimal(out: &mut Vec<u8>, n: usize)
    ensures
        final(out)@ == old(out)@ + decimal(n as nat),
    decreases n,
{
    if n >= 10 {
        push_decimal(out, n / 10);
    }
    let d = (n % 10) as u8;
    out.push(48 + d);
    proof {
        if n >= 10 {
            assert(decimal(n as nat) == decimal((n / 10) as nat).push((48 + n % 10) as u8));
        } else {
            assert(decimal(n as nat) =~= seq![(48 + n) as u8]);
        }
    }
    assert(out@ =~= old(out)@ + decimal(n as nat));
}

proof fn lemma_digits_value_prefix(s: Seq<u8>, j: int)
    requires
        0 <= j <= s.len(),
        all_digits(s),
    ensures
        digits_value(s.take(j)) <= digits_value(s),
    decreases s.len(),
{
    if j < s.len() {
        assert(s.drop_last().take(j) =~= s.take(j));
        lemma_digits_value_prefix(s.drop_last(), j);
    } else {
        assert(s.take(j) =~= s);
    }
}

/// What `usize::from_str` gives for a word: an optional `+` and then at
/// least one decimal digit, with a value that fits in `usize`. A word that
/// is not UTF-8 is refused first.
pub open spec fn spec_parse_count(t: Seq<u8>) -> Result<usize, ParseError> {
    if !valid_utf8(t) {
        Err(ParseError::InvalidUtf8)
    } else {
        let d = if t.len() > 0 && t[0] == 43 {
            t.drop_first()
        } else {
            t
        };
        if d.len() > 0 && all_digits(d) && digits_value(d) <= usize::MAX {
            Ok(digits_value(d) as usize)
        } else {
            Err(ParseError::InvalidCount)
        }
    }
}

/// `std::str::from_utf8` succeeds exactly on well-formed UTF-8.
#[verifier::external_body]
pub(crate) fn is_utf8(bytes: &[u8]) -> (r: bool)
    ensures
        r == valid_utf8(bytes@),
{
    std::str::from_utf8(bytes).is_ok()
}

/// Reads a count word as `usize::from_str` does after a UTF-8 check.
pub fn parse_count(t: &[u8]) -> (r: Result<usize, ParseError>)
    ensures
        r == spec_parse_count(t@),
{
    if !is_utf8(t) {
        return Err(ParseError::InvalidUtf8);
    }
    let start: usize = if t.len() > 0 && t[0] == 43 {
        1
    } else {
        0
    };
    let ghost d = if t@.len() > 0 && t@[0] == 43 {
        t@.drop_first()
    } else {
        t@
    };
    assert(d =~= t@.skip(start as int));
    if start == t.len() {
        return Err(ParseError::InvalidCount);
    }
    let mut value: u128 = 0;
    let mut i = start;
    assert(d.take(0) =~= Seq::<u8>::empty());
    while i < t.len()
        invariant
            start <= i <= t.len(),
            valid_utf8(t@),
            d == (if t@.len() > 0 && t@[0] == 43 {
                t@.drop_first()
            } else {
                t@
            }),
            d =~= t@.skip(start as int),
            all_digits(d.take(i - start)),
            value == digits_value(d.take(i - start)),
            value <= usize::MAX,
        decreases t.len() - i,
    {
        let b = t[i];
        if b < 48 || b > 57 {
            assert(!is_digit(d[i - start]));
            return Err(ParseError::InvalidCount);
        }
        let next = value * 10 + (b - 48) as u128;
        assert(d.take(i - start + 1).drop_last() =~= d.take(i - start));
        if next > usize::MAX as u128 {
            proof {
                if all_digits(d) {
                    lemma_digits_value_prefix(d, i - start + 1);
                }
            }
            return Err(ParseError::InvalidCount);
        }
        value = next;
        i += 1;
    }
    assert(d.take(d.len() as int) =~= d);
    Ok(value as usize)
}

// ---------------------------------------------------------------------------
// UTF-8 of ASCII text

pub open spec fn is_ascii_bytes(s: Seq<u8>) -> bool {
    forall|i: int| 0 <= i < s.len() ==> #[trigger] s[i] < 128
}

pub proof fn lemma_ascii_valid_utf8(s: Seq<u8>)
    requires
        is_ascii_bytes(s),
    ensures
        valid_utf8(s),
    decreases s.len(),
{
    if s.len() > 0 {
        let b = s[0];
        assert((b & 0x7f) <= 0x7f) by (bit_vector);
        assert(valid_first_scalar(s));
        assert(pop_first_scalar(s) =~= s.drop_first());
        lemma_ascii_valid_utf8(s.drop_first());
    }
}

// ---------------------------------------------------------------------------
// Words of a line

/// The length of the run of non-space bytes at the start of `s`.
pub open spec fn word_len(s: Seq<u8>) -> nat
    decreases s.len(),
{
    if s.len() == 0 || s[0] == space() {
        0
    } else {
        1 + word_len(s.drop_first())
    }
}

/// The words of a line: its maximal runs of non-space bytes, in order.
pub open spec fn tokens(s: Seq<u8>) -> Seq<Seq<u8>>
    decreases s.len(),
{
    if s.len() == 0 {
        Seq::empty()
    } else if s[0] == space() {
        tokens(s.drop_first())
    } else {
        let w = word_len(s);
        if 0 < w <= s.len() {
            seq![s.take(w as int)] + tokens(s.skip(w as int))
        } else {
            Seq::empty()
        }
    }
}

pub proof fn lemma_word_len_bound(s: Seq<u8>)
    ensures
        word_len(s) <= s.len(),
        s.len() > 0 && s[0] != space() ==> word_len(s) > 0,
        forall|i: int| 0 <= i < word_len(s) ==> s[i] != space(),
        word_len(s) < s.len() ==> s[word_len(s) as int] == space(),
    decreases s.len(),
{
    if s.len() > 0 && s[0] != space() {
        lemma_word_len_bound(s.drop_first());
        assert forall|i: int| 0 <= i < word_len(s) implies s[i] != space() by {
            if i > 0 {
                assert(s.drop_first()[i - 1] == s[i]);
            }
        }
    }
}

/// Words separated by single spaces.
pub open spec fn join_words(t: Seq<Seq<u8>>) -> Seq<u8>
    decreases t.len(),
{
    if t.len() == 0 {
        Seq::empty()
    } else if t.len() == 1 {
        t[0]
    } else {
        join_words(t.drop_last()) + seq![space()] + t.last()
    }
}

/// A non-empty byte string that holds no space and no `\n`.
pub open spec fn plain_word(w: Seq<u8>) -> bool {
    &&& w.len() > 0
    &&& forall|i: int| 0 <= i < w.len() ==> #[trigger] w[i] != space() && w[i] != newline()
}

/// A plain word that can end a line: a `\r` as its last byte would be
/// taken for part of the line ending.
pub open spec fn final_word(w: Seq<u8>) -> bool {
    plain_word(w) && w.last() != carriage_return()
}

/// Returns the words of a line.
pub fn split_tokens(line: &[u8]) -> (r: Vec<Vec<u8>>)
    ensures
        r@.map_values(|w: Vec<u8>| w@) == tokens(line@),
{
    let ghost s = line@;
    let mut out: Vec<Vec<u8>> = Vec::new();
    let n = line.len();
    let mut i: usize = 0;
    assert(s.skip(0) =~= s);
    while i < n
        invariant
            s == line@,
            n == s.len(),
            i <= n,
            out@.map_values(|w: Vec<u8>| w@) + tokens(s.skip(i as int)) == tokens(s),
        decreases n - i,
    {
        if line[i] == 32 {
            assert(s.skip(i as int).drop_first() =~= s.skip(i + 1));
            i += 1;
        } else {
            let ghost rest = s.skip(i as int);
            let mut j = i;
            let mut word: Vec<u8> = Vec::new();
            while j < n && line[j] != 32
                invariant
                    s == line@,
                    i < n,
                    i <= j <= n,
                    n == s.len(),
                    rest == s.skip(i as int),
                    word@ == s.subrange(i as int, j as int),
                    word_len(rest) == (j - i) + word_len(s.skip(j as int)),
                decreases n - j,
            {
                assert(s.skip(j as int).drop_first() =~= s.skip(j + 1));
                word.push(line[j]);
                assert(word@ =~= s.subrange(i as int, j + 1));
                j += 1;
            }
            proof {
                assert(word_len(s.skip(j as int)) == 0);
                lemma_word_len_bound(rest);
                assert(rest.take((j - i) as int) =~= word@);
                assert(rest.skip((j - i) as int) =~= s.skip(j as int));
            }
            let ghost before = out@.map_values(|w: Vec<u8>| w@);
            out.push(word);
            assert(out@.map_values(|w: Vec<u8>| w@) =~= before.push(word@));
            assert(before.push(word@) + tokens(s.skip(j as int)) =~= before + (seq![word@] + tokens(
                s.skip(j as int),
            )));
            i = j;
        }
    }
    assert(s.skip(n as int) =~= Seq::<u8>::empty());
    assert(out@.map_values(|w: Vec<u8>| w@) + Seq::<Seq<u8>>::empty() =~= out@.map_values(
        |w: Vec<u8>| w@,
    ));
    out
}

/// Joins words with single spaces.
pub fn join_tokens(t: &[Vec<u8>]) -> (r: Vec<u8>)
    ensures
        r@ == join_words(t@.map_values(|w: Vec<u8>| w@)),
{
    let ghost v = t@.map_values(|w: Vec<u8>| w@);
    let mut out: Vec<u8> = Vec::new();
    let mut i: usize = 0;
    assert(v.take(0) =~= Seq::<Seq<u8>>::empty());
    while i < t.len()
        invariant
            i <= t.len(),
            v == t@.map_values(|w: Vec<u8>| w@),
            out@ == join_words(v.take(i as int)),
        decreases t.len() - i,
    {
        if i > 0 {
            out.push(32);
        }
        let w = &t[i];
        let mut j: usize = 0;
        let ghost base = out@;
        while j < w.len()
            invariant
                j <= w.len(),
                out@ == base + w@.take(j as int),
            decreases w.len() - j,
        {
            out.push(w[j]);
            assert(out@ =~= base + w@.take(j + 1));
            j += 1;
        }
        assert(w@.take(w.len() as int) =~= w@);
        assert(v.take(i + 1).drop_last() =~= v.take(i as int));
        if i == 0 {
            assert(out@ =~= join_words(v.take(1)));
        } else {
            assert(out@ =~= join_words(v.take(i as int)) + seq![space()] + v[i as int]);
        }
        i += 1;
    }
    assert(v.take(t.len() as int) =~= v);
    out
}

// ---------------------------------------------------------------------------
// Line endings

/// A line as read up to and including its `\n`, with that `\n` and a `\r`
/// right before it removed.
pub open spec fn strip_line_ending_spec(buf: Seq<u8>) -> Seq<u8> {
    if buf.len() > 0 && buf.last() == newline() {
        let b = buf.drop_last();
        if b.len() > 0 && b.last() == carriage_return() {
            b.drop_last()
        } else {
            b
        }
    } else {
        buf
    }
}

/// Removes a trailing `\n`, and then a `\r` before it. A buffer holding
/// only `\n` is not accepted: there is no byte before it to look at.
pub fn strip_line_ending(buf: &mut Vec<u8>)
    requires
        old(buf)@.len() > 0,
        old(buf)@ != seq![newline()],
    ensures
        final(buf)@ == strip_line_ending_spec(old(buf)@),
{
    let end = buf.len() - 1;
    if buf[end] == 10 {
        proof {
            if end == 0 {
                assert(buf@ =~= seq![newline()]);
            }
        }
        buf.pop();
        if buf[end - 1] == 13 {
            buf.pop();
        }
    }
}

} // verus!

verus! {

// ---------------------------------------------------------------------------
// Reading a line

/// The word is the single byte `a`.
pub open spec fn is_word1(w: Seq<u8>, a: u8) -> bool {
    w.len() == 1 && w[0] == a
}

/// The word is the two bytes `a`, `b`.
pub open spec fn is_word2(w: Seq<u8>, a: u8, b: u8) -> bool {
    w.len() == 2 && w[0] == a && w[1] == b
}

/// The statistics that a one-letter word names.
pub open spec fn bench_type_of(w: Seq<u8>) -> Option<BenchmarkerType> {
    if is_word1(w, 79) {
        Some(BenchmarkerType::Overall)
    } else if is_word1(w, 83) {
        Some(BenchmarkerType::Section)
    } else if is_word1(w, 71) {
        Some(BenchmarkerType::Group)
    } else {
        None
    }
}

/// The letter that names the statistics.
pub open spec fn bench_letter(b: BenchmarkerType) -> u8 {
    match b {
        BenchmarkerType::Overall => 79u8,
        BenchmarkerType::Section => 83u8,
        BenchmarkerType::Group => 71u8,
    }
}

/// What a line with the words `t` means. Words after those an operation
/// needs are ignored; a stat flush end takes all remaining words, joined by
/// single spaces, as its name.
pub open spec fn spec_parse_words(t: Seq<Seq<u8>>) -> Result<Option<CommandView>, ParseError> {
    if t.len() == 0 {
        Ok(None)
    } else {
        let op = t[0];
        if is_word1(op, 73) {
            if t.len() < 3 {
                Err(ParseError::MissingArgument)
            } else {
                Ok(Some(CommandView::Insert { key: t[1], value: t[2] }))
            }
        } else if is_word1(op, 80) {
            if t.len() < 2 {
                Err(ParseError::MissingArgument)
            } else {
                Ok(Some(CommandView::PointQuery { key: t[1] }))
            }
        } else if is_word1(op, 85) {
            if t.len() < 3 {
                Err(ParseError::MissingArgument)
            } else {
                Ok(Some(CommandView::Update { key: t[1], value: t[2] }))
            }
        } else if is_word1(op, 77) {
            if t.len() < 3 {
                Err(ParseError::MissingArgument)
            } else {
                Ok(Some(CommandView::Merge { key: t[1], value: t[2] }))
            }
        } else if is_word1(op, 68) {
            if t.len() < 2 {
                Err(ParseError::MissingArgument)
            } else {
                Ok(Some(CommandView::PointDelete { key: t[1] }))
            }
        } else if is_word2(op, 83, 67) {
            if t.len() < 3 {
                Err(ParseError::MissingArgument)
            } else {
                match spec_parse_count(t[2]) {
                    Ok(count) => Ok(Some(CommandView::RangeQueryCount { start_key: t[1], count })),
                    Err(e) => Err(e),
                }
            }
        } else if is_word1(op, 83) {
            if t.len() < 3 {
                Err(ParseError::MissingArgument)
            } else {
                Ok(Some(CommandView::RangeQuery { start_key: t[1], end_key: t[2] }))
            }
        } else if is_word2(op, 82, 67) {
            if t.len() < 3 {
                Err(ParseError::MissingArgument)
            } else {
                match spec_parse_count(t[2]) {
                    Ok(count) => Ok(Some(CommandView::RangeDeleteCount { start_key: t[1], count })),
                    Err(e) => Err(e),
                }
            }
        } else if is_word1(op, 82) {
            if t.len() < 3 {
                Err(ParseError::MissingArgument)
            } else {
                Ok(Some(CommandView::RangeDelete { start_key: t[1], end_key: t[2] }))
            }
        } else if is_word2(op, 70, 83) {
            if t.len() < 2 {
                Err(ParseError::MissingArgument)
            } else {
                match bench_type_of(t[1]) {
                    Some(b) => Ok(Some(CommandView::StartStatFlush { benchmarker: b })),
                    None => Err(ParseError::UnknownBenchmarkerType),
                }
            }
        } else if is_word2(op, 70, 69) {
            if t.len() < 2 {
                Err(ParseError::MissingArgument)
            } else {
                match bench_type_of(t[1]) {
                    Some(b) => {
                        let name = join_words(t.skip(2));
                        if name.len() == 0 {
                            Err(ParseError::MissingArgument)
                        } else if !valid_utf8(name) {
                            Err(ParseError::InvalidUtf8)
                        } else {
                            Ok(Some(CommandView::EndStatFlush { benchmarker: b, name }))
                        }
                    },
                    None => Err(ParseError::UnknownBenchmarkerType),
                }
            }
        } else if valid_utf8(op) {
            Err(ParseError::UnknownOperation)
        } else {
            Err(ParseError::InvalidUtf8)
        }
    }
}

/// What a line (without its line ending) means.
pub open spec fn spec_parse_line(line: Seq<u8>) -> Result<Option<CommandView>, ParseError> {
    spec_parse_words(tokens(line))
}

/// The view of a parse result.
pub open spec fn parse_result_view(r: Result<Option<Command>, ParseError>) -> Result<
    Option<CommandView>,
    ParseError,
> {
    match r {
        Ok(Some(c)) => Ok(Some(c@)),
        Ok(None) => Ok(None),
        Err(e) => Err(e),
    }
}

fn word_is1(w: &Vec<u8>, a: u8) -> (r: bool)
    ensures
        r == is_word1(w@, a),
{
    w.len() == 1 && w[0] == a
}

fn word_is2(w: &Vec<u8>, a: u8, b: u8) -> (r: bool)
    ensures
        r == is_word2(w@, a, b),
{
    w.len() == 2 && w[0] == a && w[1] == b
}

fn copy_word(w: &Vec<u8>) -> (r: Vec<u8>)
    ensures
        r@ == w@,
{
    let r = w.clone();
    assert(r@ =~= w@);
    r
}

fn parse_bench_type(w: &Vec<u8>) -> (r: Option<BenchmarkerType>)
    ensures
        r == bench_type_of(w@),
{
    if word_is1(w, 79) {
        Some(BenchmarkerType::Overall)
    } else if word_is1(w, 83) {
        Some(BenchmarkerType::Section)
    } else if word_is1(w, 71) {
        Some(BenchmarkerType::Group)
    } else {
        None
    }
}

/// Reads one line of a workload file, its line ending already removed: an
/// empty line gives no operation.
pub fn parse_line(line: &[u8]) -> (r: Result<Option<Command>, ParseError>)
    ensures
        parse_result_view(r) == spec_parse_line(line@),
{
    let t = split_tokens(line);
    let ghost v = t@.map_values(|w: Vec<u8>| w@);
    assert(v == tokens(line@));
    let n = t.len();
    if n == 0 {
        return Ok(None);
    }
    assert(t[0]@ == v[0]);
    if n >= 2 {
        assert(t[1]@ == v[1]);
    }
    if n >= 3 {
        assert(t[2]@ == v[2]);
    }
    let op = &t[0];
    if word_is1(op, 73) {
        if n < 3 {
            return Err(ParseError::MissingArgument);
        }
        Ok(Some(Command::Insert { key: copy_word(&t[1]), value: copy_word(&t[2]) }))
    } else if word_is1(op, 80) {
        if n < 2 {
            return Err(ParseError::MissingArgument);
        }
        Ok(Some(Command::PointQuery { key: copy_word(&t[1]) }))
    } else if word_is1(op, 85) {
        if n < 3 {
            return Err(ParseError::MissingArgument);
        }
        Ok(Some(Command::Update { key: copy_word(&t[1]), value: copy_word(&t[2]) }))
    } else if word_is1(op, 77) {
        if n < 3 {
            return Err(ParseError::MissingArgument);
        }
        Ok(Some(Command::Merge { key: copy_word(&t[1]), value: copy_word(&t[2]) }))
    } else if word_is1(op, 68) {
        if n < 2 {
            return Err(ParseError::MissingArgument);
        }
        Ok(Some(Command::PointDelete { key: copy_word(&t[1]) }))
    } else if word_is2(op, 83, 67) {
        if n < 3 {
            return Err(ParseError::MissingArgument);
        }
        match parse_count(t[2].as_slice()) {
            Ok(count) => Ok(Some(Command::RangeQueryCount { start_key: copy_word(&t[1]), count })),
            Err(e) => Err(e),
        }
    } else if word_is1(op, 83) {
        if n < 3 {
            return Err(ParseError::MissingArgument);
        }
        Ok(Some(Command::RangeQuery { start_key: copy_word(&t[1]), end_key: copy_word(&t[2]) }))
    } else if word_is2(op, 82, 67) {
        if n < 3 {
            return Err(ParseError::MissingArgument);
        }
        match parse_count(t[2].as_slice()) {
            Ok(count) => Ok(Some(Command::RangeDeleteCount { start_key: copy_word(&t[1]), count })),
            Err(e) => Err(e),
        }
    } else if word_is1(op, 82) {
        if n < 3 {
            return Err(ParseError::MissingArgument);
        }
        Ok(Some(Command::RangeDelete { start_key: copy_word(&t[1]), end_key: copy_word(&t[2]) }))
    } else if word_is2(op, 70, 83) {
        if n < 2 {
            return Err(ParseError::MissingArgument);
        }
        match parse_bench_type(&t[1]) {
            Some(b) => Ok(Some(Command::StartStatFlush { benchmarker: b })),
            None => Err(ParseError::UnknownBenchmarkerType),
        }
    } else if word_is2(op, 70, 69) {
        if n < 2 {
            return Err(ParseError::MissingArgument);
        }
        match parse_bench_type(&t[1]) {
            Some(b) => {
                let rest = t.as_slice().split_at(2).1;
                assert(rest@ == t@.skip(2));
                assert(rest@.map_values(|w: Vec<u8>| w@) =~= v.skip(2));
                let name = join_tokens(rest);
                if name.len() == 0 {
                    Err(ParseError::MissingArgument)
                } else if !is_utf8(name.as_slice()) {
                    Err(ParseError::InvalidUtf8)
                } else {
                    Ok(Some(Command::EndStatFlush { benchmarker: b, name }))
                }
            },
            None => Err(ParseError::UnknownBenchmarkerType),
        }
    } else if is_utf8(op.as_slice()) {
        Err(ParseError::UnknownOperation)
    } else {
        Err(ParseError::InvalidUtf8)
    }
}

// ---------------------------------------------------------------------------
// Writing a line

/// The line written for an operation, `\n` included.
pub open spec fn spec_encode(c: CommandView) -> Seq<u8> {
    match c {
        CommandView::Insert { key, value } => seq![73u8, 32u8] + key + seq![32u8] + value + seq![
            10u8,
        ],
        CommandView::Update { key, value } => seq![85u8, 32u8] + key + seq![32u8] + value + seq![
            10u8,
        ],
        CommandView::Merge { key, value } => seq![77u8, 32u8] + key + seq![32u8] + value + seq![
            10u8,
        ],
        CommandView::PointDelete { key } => seq![68u8, 32u8] + key + seq![10u8],
        CommandView::PointQuery { key } => seq![80u8, 32u8] + key + seq![10u8],
        CommandView::RangeQuery { start_key, end_key } => seq![83u8, 32u8] + start_key + seq![32u8]
            + end_key + seq![10u8],
        CommandView::RangeQueryCount { start_key, count } => seq![83u8, 67u8, 32u8] + start_key
            + seq![32u8] + decimal(count as nat) + seq![10u8],
        CommandView::RangeDelete { start_key, end_key } => seq![82u8, 32u8] + start_key + seq![
            32u8,
        ] + end_key + seq![10u8],
        CommandView::RangeDeleteCount { start_key, count } => seq![82u8, 67u8, 32u8] + start_key
            + seq![32u8] + decimal(count as nat) + seq![10u8],
        CommandView::StartStatFlush { benchmarker } => seq![
            70u8,
            83u8,
            32u8,
            bench_letter(benchmarker),
            10u8,
        ],
        CommandView::EndStatFlush { benchmarker, name } => seq![
            70u8,
            69u8,
            32u8,
            bench_letter(benchmarker),
            32u8,
        ] + name + seq![10u8],
    }
}

/// Appends the bytes of `b` to `out`.
pub fn push_bytes(out: &mut Vec<u8>, b: &[u8])
    ensures
        final(out)@ == old(out)@ + b@,
{
    let mut i: usize = 0;
    while i < b.len()
        invariant
            i <= b.len(),
            out@ == old(out)@ + b@.take(i as int),
        decreases b.len() - i,
    {
        out.push(b[i]);
        assert(out@ =~= old(out)@ + b@.take(i + 1));
        i += 1;
    }
    assert(b@.take(b.len() as int) =~= b@);
}

fn letter_of(b: BenchmarkerType) -> (r: u8)
    ensures
        r == bench_letter(b),
{
    match b {
        BenchmarkerType::Overall => 79,
        BenchmarkerType::Section => 83,
        BenchmarkerType::Group => 71,
    }
}

fn push_key_value_line(out: &mut Vec<u8>, op: u8, key: &[u8], value: &[u8])
    requires
        old(out)@.len() == 0,
    ensures
        final(out)@ == seq![op, 32u8] + key@ + seq![32u8] + value@ + seq![10u8],
{
    out.push(op);
    out.push(32);
    push_bytes(out, key);
    out.push(32);
    push_bytes(out, value);
    out.push(10);
    assert(out@ =~= seq![op, 32u8] + key@ + seq![32u8] + value@ + seq![10u8]);
}

fn push_key_line(out: &mut Vec<u8>, op: u8, key: &[u8])
    requires
        old(out)@.len() == 0,
    ensures
        final(out)@ == seq![op, 32u8] + key@ + seq![10u8],
{
    out.push(op);
    out.push(32);
    push_bytes(out, key);
    out.push(10);
    assert(out@ =~= seq![op, 32u8] + key@ + seq![10u8]);
}

fn push_count_line(out: &mut Vec<u8>, op: u8, key: &[u8], count: usize)
    requires
        old(out)@.len() == 0,
    ensures
        final(out)@ == seq![op, 67u8, 32u8] + key@ + seq![32u8] + decimal(count as nat) + seq![10u8],
{
    out.push(op);
    out.push(67);
    out.push(32);
    push_bytes(out, key);
    out.push(32);
    push_decimal(out, count);
    out.push(10);
    assert(out@ =~= seq![op, 67u8, 32u8] + key@ + seq![32u8] + decimal(count as nat) + seq![10u8]);
}

/// The line written for an operation, `\n` included.
pub fn encode_command(c: &Command) -> (r: Vec<u8>)
    ensures
        r@ == spec_encode(c@),
{
    let mut out: Vec<u8> = Vec::new();
    match c {
        Command::Insert { key, value } => push_key_value_line(&mut out, 73, key.as_slice(), value.as_slice()),
        Command::Update { key, value } => push_key_value_line(&mut out, 85, key.as_slice(), value.as_slice()),
        Command::Merge { key, value } => push_key_value_line(&mut out, 77, key.as_slice(), value.as_slice()),
        Command::PointDelete { key } => push_key_line(&mut out, 68, key.as_slice()),
        Command::PointQuery { key } => push_key_line(&mut out, 80, key.as_slice()),
        Command::RangeQuery { start_key, end_key } => push_key_value_line(
            &mut out,
            83,
            start_key.as_slice(),
            end_key.as_slice(),
        ),
        Command::RangeQueryCount { start_key, count } => push_count_line(
            &mut out,
            83,
            start_key.as_slice(),
            *count,
        ),
        Command::RangeDelete { start_key, end_key } => push_key_value_line(
            &mut out,
            82,
            start_key.as_slice(),
            end_key.as_slice(),
        ),
        Command::RangeDeleteCount { start_key, count } => push_count_line(
            &mut out,
            82,
            start_key.as_slice(),
            *count,
        ),
        Command::StartStatFlush { benchmarker } => {
            out.push(70);
            out.push(83);
            out.push(32);
            out.push(letter_of(*benchmarker));
            out.push(10);
            assert(out@ =~= spec_encode(c@));
        },
        Command::EndStatFlush { benchmarker, name } => {
            out.push(70);
            out.push(69);
            out.push(32);
            out.push(letter_of(*benchmarker));
            out.push(32);
            push_bytes(&mut out, name.as_slice());
            out.push(10);
            assert(out@ =~= spec_encode(c@));
        },
    }
    out
}

} // verus!

verus! {

// ---------------------------------------------------------------------------
// Reading back what was written

pub proof fn lemma_word_len_concat(a: Seq<u8>, b: Seq<u8>)
    ensures
        word_len(a + seq![space()] + b) == word_len(a),
    decreases a.len(),
{
    let s = a + seq![space()] + b;
    if a.len() > 0 && a[0] != space() {
        assert(s.drop_first() =~= a.drop_first() + seq![space()] + b);
        lemma_word_len_concat(a.drop_first(), b);
    }
}

/// A space splits the words of a line.
pub proof fn lemma_tokens_concat(a: Seq<u8>, b: Seq<u8>)
    ensures
        tokens(a + seq![space()] + b) == tokens(a) + tokens(b),
    decreases a.len(),
{
    let s = a + seq![space()] + b;
    if a.len() == 0 {
        assert(s.drop_first() =~= b);
        assert(tokens(a) + tokens(b) =~= tokens(b));
    } else if a[0] == space() {
        assert(s.drop_first() =~= a.drop_first() + seq![space()] + b);
        lemma_tokens_concat(a.drop_first(), b);
    } else {
        lemma_word_len_concat(a, b);
        lemma_word_len_bound(a);
        let w = word_len(a) as int;
        assert(s.take(w) =~= a.take(w));
        assert(s.skip(w) =~= a.skip(w) + seq![space()] + b);
        lemma_tokens_concat(a.skip(w), b);
        assert(tokens(s) =~= seq![a.take(w)] + (tokens(a.skip(w)) + tokens(b)));
        assert(tokens(a) =~= seq![a.take(w)] + tokens(a.skip(w)));
    }
}

proof fn lemma_word_len_plain(w: Seq<u8>)
    requires
        forall|i: int| 0 <= i < w.len() ==> #[trigger] w[i] != space(),
    ensures
        word_len(w) == w.len(),
    decreases w.len(),
{
    if w.len() > 0 {
        assert forall|i: int| 0 <= i < w.drop_first().len() implies #[trigger] w.drop_first()[i]
            != space() by {
            assert(w.drop_first()[i] == w[i + 1]);
        }
        lemma_word_len_plain(w.drop_first());
    }
}

/// A non-empty byte string without spaces is one word.
pub proof fn lemma_tokens_word(w: Seq<u8>)
    requires
        w.len() > 0,
        forall|i: int| 0 <= i < w.len() ==> #[trigger] w[i] != space(),
    ensures
        tokens(w) == seq![w],
{
    lemma_word_len_plain(w);
    assert(w.take(w.len() as int) =~= w);
    assert(w.skip(w.len() as int) =~= Seq::<u8>::empty());
    assert(tokens(Seq::<u8>::empty()) == Seq::<Seq<u8>>::empty());
    assert(w[0] != space());
    assert(tokens(w) == seq![w.take(w.len() as int)] + tokens(w.skip(w.len() as int)));
    assert(seq![w] + Seq::<Seq<u8>>::empty() =~= seq![w]);
}

proof fn lemma_plain_tokens(w: Seq<u8>)
    requires
        plain_word(w),
    ensures
        tokens(w) == seq![w],
{
    assert forall|i: int| 0 <= i < w.len() implies #[trigger] w[i] != space() by {
        assert(w[i] != space());
    }
    lemma_tokens_word(w);
}

/// The digits of a count are read back as the count.
pub proof fn lemma_parse_count_decimal(n: usize)
    ensures
        spec_parse_count(decimal(n as nat)) == Ok::<usize, ParseError>(n),
        final_word(decimal(n as nat)),
{
    let d = decimal(n as nat);
    lemma_decimal(n as nat);
    assert(is_ascii_bytes(d)) by {
        assert forall|i: int| 0 <= i < d.len() implies #[trigger] d[i] < 128 by {
            assert(is_digit(d[i]));
        }
    }
    lemma_ascii_valid_utf8(d);
    assert forall|i: int| 0 <= i < d.len() implies #[trigger] d[i] != space() && d[i] != newline()
        && d[i] != carriage_return() by {
        assert(is_digit(d[i]));
    }
    assert(d[d.len() - 1] != carriage_return());
}

/// A name that the words of a stat flush end give back.
pub open spec fn flush_name_ok(name: Seq<u8>) -> bool {
    &&& name.len() > 0
    &&& join_words(tokens(name)) == name
    &&& valid_utf8(name)
    &&& forall|i: int| 0 <= i < name.len() ==> #[trigger] name[i] != newline()
    &&& name.last() != carriage_return()
}

/// An operation whose line reads back as the same operation: keys, values
/// and names are non-empty and hold no `\n`, keys and values hold no space,
/// a name's spaces are single and inside it, and the line's last word does
/// not end with a `\r`.
pub open spec fn line_safe(c: CommandView) -> bool {
    match c {
        CommandView::Insert { key, value } => plain_word(key) && final_word(value),
        CommandView::Update { key, value } => plain_word(key) && final_word(value),
        CommandView::Merge { key, value } => plain_word(key) && final_word(value),
        CommandView::PointDelete { key } => final_word(key),
        CommandView::PointQuery { key } => final_word(key),
        CommandView::RangeQuery { start_key, end_key } => plain_word(start_key) && final_word(end_key),
        CommandView::RangeQueryCount { start_key, count } => plain_word(start_key),
        CommandView::RangeDelete { start_key, end_key } => plain_word(start_key) && final_word(end_key),
        CommandView::RangeDeleteCount { start_key, count } => plain_word(start_key),
        CommandView::StartStatFlush { benchmarker } => true,
        CommandView::EndStatFlush { benchmarker, name } => flush_name_ok(name),
    }
}

proof fn lemma_strip(x: Seq<u8>)
    requires
        x.len() > 0,
        x.last() != carriage_return(),
    ensures
        strip_line_ending_spec(x + seq![newline()]) == x,
{
    assert((x + seq![newline()]).drop_last() =~= x);
}

proof fn lemma_three_words(op: Seq<u8>, a: Seq<u8>, b: Seq<u8>)
    requires
        op.len() > 0,
        forall|i: int| 0 <= i < op.len() ==> #[trigger] op[i] != space(),
        plain_word(a),
        plain_word(b),
    ensures
        tokens(op + seq![space()] + a + seq![space()] + b) == seq![op, a, b],
{
    lemma_tokens_word(op);
    lemma_plain_tokens(a);
    lemma_plain_tokens(b);
    lemma_tokens_concat(a, b);
    assert(op + seq![space()] + a + seq![space()] + b =~= op + seq![space()] + (a + seq![space()]
        + b));
    lemma_tokens_concat(op, a + seq![space()] + b);
    assert(seq![op] + (seq![a] + seq![b]) =~= seq![op, a, b]);
}

proof fn lemma_two_words(op: Seq<u8>, a: Seq<u8>)
    requires
        op.len() > 0,
        forall|i: int| 0 <= i < op.len() ==> #[trigger] op[i] != space(),
        plain_word(a),
    ensures
        tokens(op + seq![space()] + a) == seq![op, a],
{
    lemma_tokens_word(op);
    lemma_plain_tokens(a);
    lemma_tokens_concat(op, a);
    assert(seq![op] + seq![a] =~= seq![op, a]);
}

proof fn lemma_roundtrip_insert(key: Seq<u8>, value: Seq<u8>)
    requires
        line_safe(CommandView::Insert { key, value }),
    ensures
        spec_parse_line(strip_line_ending_spec(spec_encode(CommandView::Insert { key, value }))) == Ok::<
            Option<CommandView>,
            ParseError,
        >(Some(CommandView::Insert { key, value })),
{
    let e = spec_encode(CommandView::Insert { key, value });
    let x = seq![73u8] + seq![space()] + key + seq![space()] + value;
    assert(e =~= x + seq![newline()]);
    lemma_strip(x);
    lemma_three_words(seq![73u8], key, value);
}

proof fn lemma_roundtrip_update(key: Seq<u8>, value: Seq<u8>)
    requires
        line_safe(CommandView::Update { key, value }),
    ensures
        spec_parse_line(strip_line_ending_spec(spec_encode(CommandView::Update { key, value }))) == Ok::<
            Option<CommandView>,
            ParseError,
        >(Some(CommandView::Update { key, value })),
{
    let e = spec_encode(CommandView::Update { key, value });
    let x = seq![85u8] + seq![space()] + key + seq![space()] + value;
    assert(e =~= x + seq![newline()]);
    lemma_strip(x);
    lemma_three_words(seq![85u8], key, value);
}

proof fn lemma_roundtrip_merge(key: Seq<u8>, value: Seq<u8>)
    requires
        line_safe(CommandView::Merge { key, value }),
    ensures
        spec_parse_line(strip_line_ending_spec(spec_encode(CommandView::Merge { key, value }))) == Ok::<
            Option<CommandView>,
            ParseError,
        >(Some(CommandView::Merge { key, value })),
{
    let e = spec_encode(CommandView::Merge { key, value });
    let x = seq![77u8] + seq![space()] + key + seq![space()] + value;
    assert(e =~= x + seq![newline()]);
    lemma_strip(x);
    lemma_three_words(seq![77u8], key, value);
}

proof fn lemma_roundtrip_point_delete(key: Seq<u8>)
    requires
        line_safe(CommandView::PointDelete { key }),
    ensures
        spec_parse_line(strip_line_ending_spec(spec_encode(CommandView::PointDelete { key }))) == Ok::<
            Option<CommandView>,
            ParseError,
        >(Some(CommandView::PointDelete { key })),
{
    let e = spec_encode(CommandView::PointDelete { key });
    let x = seq![68u8] + seq![space()] + key;
    assert(e =~= x + seq![newline()]);
    lemma_strip(x);
    lemma_two_words(seq![68u8], key);
}

proof fn lemma_roundtrip_point_query(key: Seq<u8>)
    requires
        line_safe(CommandView::PointQuery { key }),
    ensures
        spec_parse_line(strip_line_ending_spec(spec_encode(CommandView::PointQuery { key }))) == Ok::<
            Option<CommandView>,
            ParseError,
        >(Some(CommandView::PointQuery { key })),
{
    let e = spec_encode(CommandView::PointQuery { key });
    let x = seq![80u8] + seq![space()] + key;
    assert(e =~= x + seq![newline()]);
    lemma_strip(x);
    lemma_two_words(seq![80u8], key);
}

proof fn lemma_roundtrip_range_query(start_key: Seq<u8>, end_key: Seq<u8>)
    requires
        line_safe(CommandView::RangeQuery { start_key, end_key }),
    ensures
        spec_parse_line(strip_line_ending_spec(spec_encode(CommandView::RangeQuery { start_key, end_key }))) == Ok::<
            Option<CommandView>,
            ParseError,
        >(Some(CommandView::RangeQuery { start_key, end_key })),
{
    let e = spec_encode(CommandView::RangeQuery { start_key, end_key });
    let x = seq![83u8] + seq![space()] + start_key + seq![space()] + end_key;
    assert(e =~= x + seq![newline()]);
    lemma_strip(x);
    lemma_three_words(seq![83u8], start_key, end_key);
}

proof fn lemma_roundtrip_range_query_count(start_key: Seq<u8>, count: usize)
    requires
        line_safe(CommandView::RangeQueryCount { start_key, count }),
    ensures
        spec_parse_line(strip_line_ending_spec(spec_encode(CommandView::RangeQueryCount { start_key, count }))) == Ok::<
            Option<CommandView>,
            ParseError,
        >(Some(CommandView::RangeQueryCount { start_key, count })),
{
    let e = spec_encode(CommandView::RangeQueryCount { start_key, count });
    let d = decimal(count as nat);
    lemma_parse_count_decimal(count);
    let x = seq![83u8, 67u8] + seq![space()] + start_key + seq![space()] + d;
    assert(e =~= x + seq![newline()]);
    lemma_strip(x);
    lemma_three_words(seq![83u8, 67u8], start_key, d);
}

proof fn lemma_roundtrip_range_delete(start_key: Seq<u8>, end_key: Seq<u8>)
    requires
        line_safe(CommandView::RangeDelete { start_key, end_key }),
    ensures
        spec_parse_line(strip_line_ending_spec(spec_encode(CommandView::RangeDelete { start_key, end_key }))) == Ok::<
            Option<CommandView>,
            ParseError,
        >(Some(CommandView::RangeDelete { start_key, end_key })),
{
    let e = spec_encode(CommandView::RangeDelete { start_key, end_key });
    let x = seq![82u8] + seq![space()] + start_key + seq![space()] + end_key;
    assert(e =~= x + seq![newline()]);
    lemma_strip(x);
    lemma_three_words(seq![82u8], start_key, end_key);
}

proof fn lemma_roundtrip_range_delete_count(start_key: Seq<u8>, count: usize)
    requires
        line_safe(CommandView::RangeDeleteCount { start_key, count }),
    ensures
        spec_parse_line(strip_line_ending_spec(spec_encode(CommandView::RangeDeleteCount { start_key, count }))) == Ok::<
            Option<CommandView>,
            ParseError,
        >(Some(CommandView::RangeDeleteCount { start_key, count })),
{
    let e = spec_encode(CommandView::RangeDeleteCount { start_key, count });
    let d = decimal(count as nat);
    lemma_parse_count_decimal(count);
    let x = seq![82u8, 67u8] + seq![space()] + start_key + seq![space()] + d;
    assert(e =~= x + seq![newline()]);
    lemma_strip(x);
    lemma_three_words(seq![82u8, 67u8], start_key, d);
}

proof fn lemma_roundtrip_start_stat_flush(benchmarker: BenchmarkerType)
    requires
        line_safe(CommandView::StartStatFlush { benchmarker }),
    ensures
        spec_parse_line(strip_line_ending_spec(spec_encode(CommandView::StartStatFlush { benchmarker }))) == Ok::<
            Option<CommandView>,
            ParseError,
        >(Some(CommandView::StartStatFlush { benchmarker })),
{
    let e = spec_encode(CommandView::StartStatFlush { benchmarker });
    let l = seq![bench_letter(benchmarker)];
    let x = seq![70u8, 83u8] + seq![space()] + l;
    assert(e =~= x + seq![newline()]);
    lemma_strip(x);
    assert(plain_word(l));
    lemma_two_words(seq![70u8, 83u8], l);
}

proof fn lemma_roundtrip_end_stat_flush(benchmarker: BenchmarkerType, name: Seq<u8>)
    requires
        line_safe(CommandView::EndStatFlush { benchmarker, name }),
    ensures
        spec_parse_line(strip_line_ending_spec(spec_encode(CommandView::EndStatFlush { benchmarker, name }))) == Ok::<
            Option<CommandView>,
            ParseError,
        >(Some(CommandView::EndStatFlush { benchmarker, name })),
{
    let e = spec_encode(CommandView::EndStatFlush { benchmarker, name });
    let l = seq![bench_letter(benchmarker)];
    let x = seq![70u8, 69u8] + seq![space()] + l + seq![space()] + name;
    assert(e =~= x + seq![newline()]);
    lemma_strip(x);
    assert(plain_word(l));
    lemma_tokens_word(seq![70u8, 69u8]);
    lemma_plain_tokens(l);
    lemma_tokens_concat(l, name);
    assert(x =~= seq![70u8, 69u8] + seq![space()] + (l + seq![space()] + name));
    lemma_tokens_concat(seq![70u8, 69u8], l + seq![space()] + name);
    let t = tokens(x);
    assert(t =~= seq![seq![70u8, 69u8], l] + tokens(name));
    assert(t.skip(2) =~= tokens(name));
}

/// Reading back the line written for an operation gives the operation, for
/// every operation whose words survive the format (see [`line_safe`]).
pub proof fn lemma_parse_encode_roundtrip(c: CommandView)
    requires
        line_safe(c),
    ensures
        spec_parse_line(strip_line_ending_spec(spec_encode(c))) == Ok::<
            Option<CommandView>,
            ParseError,
        >(Some(c)),
{
    match c {
        CommandView::Insert { key, value } => lemma_roundtrip_insert(key, value),
        CommandView::Update { key, value } => lemma_roundtrip_update(key, value),
        CommandView::Merge { key, value } => lemma_roundtrip_merge(key, value),
        CommandView::PointDelete { key } => lemma_roundtrip_point_delete(key),
        CommandView::PointQuery { key } => lemma_roundtrip_point_query(key),
        CommandView::RangeQuery { start_key, end_key } => lemma_roundtrip_range_query(start_key, end_key),
        CommandView::RangeQueryCount { start_key, count } => lemma_roundtrip_range_query_count(start_key, count),
        CommandView::RangeDelete { start_key, end_key } => lemma_roundtrip_range_delete(start_key, end_key),
        CommandView::RangeDeleteCount { start_key, count } => lemma_roundtrip_range_delete_count(start_key, count),
        CommandView::StartStatFlush { benchmarker } => lemma_roundtrip_start_stat_flush(benchmarker),
        CommandView::EndStatFlush { benchmarker, name } => lemma_roundtrip_end_stat_flush(benchmarker, name),
    }
}

} // verus!
