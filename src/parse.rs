use crate::config::{is_pow2_u64, is_power_of_two, DataCacheConfig, L2CacheConfig, PageTableConfig, SimulatorConfig, TLBConfig};
use crate::trace::{Operation, Trace};
use vstd::prelude::*;
use vstd::string::StringSliceAdditionalSpecFns;

verus! {

/// An ASCII whitespace byte: space, tab, line feed, vertical tab, form feed
/// or carriage return.
pub open spec fn is_space(b: u8) -> bool {
    b == 32 || (9 <= b && b <= 13)
}

/// `s` without its leading whitespace.
pub open spec fn trim_start(s: Seq<u8>) -> Seq<u8>
    decreases s.len(),
{
    if s.len() > 0 && is_space(s[0]) {
        trim_start(s.drop_first())
    } else {
        s
    }
}

/// `s` without its trailing whitespace.
pub open spec fn trim_end(s: Seq<u8>) -> Seq<u8>
    decreases s.len(),
{
    if s.len() > 0 && is_space(s.last()) {
        trim_end(s.drop_last())
    } else {
        s
    }
}

/// `s` without leading and trailing whitespace.
pub open spec fn trim(s: Seq<u8>) -> Seq<u8> {
    trim_end(trim_start(s))
}

/// A line is blank when only whitespace is on it.
pub open spec fn is_blank(s: Seq<u8>) -> bool {
    trim(s).len() == 0
}

/// The value of a decimal digit.
pub open spec fn digit_value(b: u8) -> nat {
    (b - 48) as nat
}

/// Every byte of `s` is a decimal digit.
pub open spec fn all_decimal(s: Seq<u8>) -> bool {
    forall|i: int| 0 <= i < s.len() ==> 48 <= #[trigger] s[i] <= 57
}

/// The number the decimal digits of `s` spell.
pub open spec fn decimal_value(s: Seq<u8>) -> nat
    decreases s.len(),
{
    if s.len() == 0 {
        0
    } else {
        decimal_value(s.drop_last()) * 10 + digit_value(s.last())
    }
}

/// `b` is a hexadecimal digit, of either case.
pub open spec fn is_hex_digit(b: u8) -> bool {
    (48 <= b <= 57) || (97 <= b <= 102) || (65 <= b <= 70)
}

/// The value of a hexadecimal digit.
pub open spec fn hex_digit_value(b: u8) -> nat {
    if 48 <= b <= 57 {
        (b - 48) as nat
    } else if 97 <= b <= 102 {
        (b - 87) as nat
    } else {
        (b - 55) as nat
    }
}

/// Every byte of `s` is a hexadecimal digit.
pub open spec fn all_hex(s: Seq<u8>) -> bool {
    forall|i: int| 0 <= i < s.len() ==> is_hex_digit(#[trigger] s[i])
}

/// The number the hexadecimal digits of `s` spell.
pub open spec fn hex_value(s: Seq<u8>) -> nat
    decreases s.len(),
{
    if s.len() == 0 {
        0
    } else {
        hex_value(s.drop_last()) * 16 + hex_digit_value(s.last())
    }
}

/// The number of colons in `s`.
pub open spec fn colon_count(s: Seq<u8>) -> nat
    decreases s.len(),
{
    if s.len() == 0 {
        0
    } else {
        colon_count(s.drop_last()) + if s.last() == 58 {
            1nat
        } else {
            0nat
        }
    }
}

/// The position of the first colon of `s` (meaningful when it has one).
pub open spec fn first_colon(s: Seq<u8>) -> int {
    choose|k: int| 0 <= k < s.len() && s[k] == 58 && forall|j: int| 0 <= j < k ==> s[j] != 58
}

/// The trimmed key and value of a line `key: value` with exactly one colon.
pub open spec fn key_value(s: Seq<u8>) -> Option<(Seq<u8>, Seq<u8>)> {
    if colon_count(s) == 1 {
        let k = first_colon(s);
        Some((trim(s.subrange(0, k)), trim(s.subrange(k + 1, s.len() as int))))
    } else {
        None
    }
}

/// The decimal number `s` spells, if it is one that fits in 64 bits.
pub open spec fn decimal_of(s: Seq<u8>) -> Option<u64> {
    if s.len() > 0 && all_decimal(s) && decimal_value(s) <= u64::MAX {
        Some(decimal_value(s) as u64)
    } else {
        None
    }
}

/// The hexadecimal number `s` spells, if it is one that fits in 64 bits.
pub open spec fn hex_of(s: Seq<u8>) -> Option<u64> {
    if s.len() > 0 && all_hex(s) && hex_value(s) <= u64::MAX {
        Some(hex_value(s) as u64)
    } else {
        None
    }
}

/// The flag `s` spells: `y` or `Y` for true, `n` or `N` for false.
pub open spec fn flag_of(s: Seq<u8>) -> Option<bool> {
    if s =~= seq![121u8] || s =~= seq![89u8] {
        Some(true)
    } else if s =~= seq![110u8] || s =~= seq![78u8] {
        Some(false)
    } else {
        None
    }
}

/// The operation a trace line `R:<hex>` or `W:<hex>` names.
pub open spec fn operation_of(s: Seq<u8>) -> Option<Operation> {
    match key_value(s) {
        Some((k, v)) => match hex_of(v) {
            Some(a) => if k =~= seq![82u8] {
                Some(Operation::Read(a))
            } else if k =~= seq![87u8] {
                Some(Operation::Write(a))
            } else {
                None
            },
            None => None,
        },
        None => None,
    }
}


/// What a line of the configuration holds.
#[derive(Clone, Copy, Debug, PartialEq, Eq, Structural)]
pub enum Expect {
    /// A section header, the whole line.
    Header,
    /// `key: n` with `n` a decimal power of two.
    Number,
    /// `key: y` or `key: n`.
    Flag,
}

/// Why a configuration was refused.
#[derive(Clone, Copy, Debug, PartialEq, Eq, Structural)]
pub enum ConfigErrorKind {
    /// The text ended before the line.
    MissingLine,
    /// The line is not the expected header.
    WrongHeader,
    /// The line is not `key: value` with the expected key.
    WrongKey,
    /// The value is not a decimal number that fits in 64 bits.
    NotANumber,
    /// The number is not a power of two.
    NotPowerOfTwo,
    /// The value is not `y`, `Y`, `n` or `N`.
    NotAFlag,
    /// The sizes are powers of two but do not fit together: a line longer
    /// than a page with virtual addresses, more index and offset bits than
    /// an address has, or more sets or ways than memory can index.
    Inconsistent,
}

/// A refused configuration: the header or key that was expected, and why.
#[derive(Clone, Copy, Debug, PartialEq, Eq)]
pub struct ConfigError {
    pub expected: &'static str,
    pub kind: ConfigErrorKind,
}

/// The lines of a configuration, in order.
pub open spec fn config_grammar() -> Seq<(&'static str, Expect)> {
    seq![
        ("Data TLB configuration", Expect::Header),
        ("Number of sets", Expect::Number),
        ("Set size", Expect::Number),
        ("Page Table configuration", Expect::Header),
        ("Number of virtual pages", Expect::Number),
        ("Number of physical pages", Expect::Number),
        ("Page size", Expect::Number),
        ("Data Cache configuration", Expect::Header),
        ("Number of sets", Expect::Number),
        ("Set size", Expect::Number),
        ("Line size", Expect::Number),
        ("Write through/no write allocate", Expect::Flag),
        ("L2 Cache configuration", Expect::Header),
        ("Number of sets", Expect::Number),
        ("Set size", Expect::Number),
        ("Line size", Expect::Number),
        ("Write through/no write allocate", Expect::Flag),
        ("Virtual addresses", Expect::Flag),
        ("TLB", Expect::Flag),
        ("L2 cache", Expect::Flag),
    ]
}

/// The first line at or after `pos` that is not blank, or the end.
pub open spec fn next_line(lines: Seq<Seq<u8>>, pos: int) -> int
    decreases lines.len() - pos,
{
    if pos < 0 || pos >= lines.len() {
        lines.len() as int
    } else if is_blank(lines[pos]) {
        next_line(lines, pos + 1)
    } else {
        pos
    }
}

/// Reads the line that `text` and `kind` describe from `pos` on: the value
/// it holds (none for a header, 1 or 0 for a flag) and the position after
/// it, or why it does not fit.
pub open spec fn read_item(lines: Seq<Seq<u8>>, pos: int, text: &str, kind: Expect) -> Result<
    (Option<u64>, int),
    ConfigErrorKind,
> {
    let p = next_line(lines, pos);
    if p >= lines.len() {
        Err(ConfigErrorKind::MissingLine)
    } else {
        match kind {
            Expect::Header => if trim(lines[p]) == text.spec_bytes() {
                Ok((None, p + 1))
            } else {
                Err(ConfigErrorKind::WrongHeader)
            },
            _ => match key_value(lines[p]) {
                Some((k, v)) => if k != text.spec_bytes() {
                    Err(ConfigErrorKind::WrongKey)
                } else if kind == Expect::Number {
                    match decimal_of(v) {
                        Some(n) => if is_pow2_u64(n) {
                            Ok((Some(n), p + 1))
                        } else {
                            Err(ConfigErrorKind::NotPowerOfTwo)
                        },
                        None => Err(ConfigErrorKind::NotANumber),
                    }
                } else {
                    match flag_of(v) {
                        Some(b) => Ok((Some(if b { 1u64 } else { 0u64 }), p + 1)),
                        None => Err(ConfigErrorKind::NotAFlag),
                    }
                },
                None => Err(ConfigErrorKind::WrongKey),
            },
        }
    }
}

/// Reads items `i..` of `grammar` from `pos` on: the values they hold, in
/// order, or the first item that does not fit and why.
pub open spec fn read_items(
    lines: Seq<Seq<u8>>,
    grammar: Seq<(&'static str, Expect)>,
    i: int,
    pos: int,
) -> Result<Seq<u64>, ConfigError>
    decreases grammar.len() - i,
{
    if i < 0 || i >= grammar.len() {
        Ok(Seq::empty())
    } else {
        match read_item(lines, pos, grammar[i].0, grammar[i].1) {
            Err(kind) => Err(ConfigError { expected: grammar[i].0, kind }),
            Ok((value, next)) => match read_items(lines, grammar, i + 1, next) {
                Err(e) => Err(e),
                Ok(rest) => match value {
                    Some(v) => Ok(seq![v] + rest),
                    None => Ok(rest),
                },
            },
        }
    }
}

/// The configuration that the sixteen values of a configuration text
/// describe, in the order the text gives them.
pub open spec fn config_from_values(v: Seq<u64>) -> SimulatorConfig {
    SimulatorConfig {
        tlb: TLBConfig { number_of_sets: v[0], set_size: v[1] },
        page_table: PageTableConfig {
            number_of_virtual_pages: v[2],
            number_of_physical_pages: v[3],
            page_size: v[4],
        },
        data_cache: DataCacheConfig {
            number_of_sets: v[5],
            set_size: v[6],
            line_size: v[7],
            write_through: v[8] == 1,
        },
        l2_cache: L2CacheConfig {
            number_of_sets: v[9],
            set_size: v[10],
            line_size: v[11],
            write_through: v[12] == 1,
        },
        virtual_addresses_enabled: v[13] == 1,
        tlb_enabled: v[14] == 1,
        l2_cache_enabled: v[15] == 1,
    }
}

/// What a configuration text describes: the configuration, or the first
/// line that does not fit and why, or `Inconsistent` when the sizes do not
/// fit together.
pub open spec fn config_of(lines: Seq<Seq<u8>>) -> Result<SimulatorConfig, ConfigError> {
    match read_items(lines, config_grammar(), 0, 0) {
        Err(e) => Err(e),
        Ok(values) => if values.len() != 16 {
            Err(ConfigError { expected: "L2 cache", kind: ConfigErrorKind::Inconsistent })
        } else if config_from_values(values).wf() {
            Ok(config_from_values(values))
        } else {
            Err(
                ConfigError {
                    expected: config_from_values(values).fault_field(),
                    kind: ConfigErrorKind::Inconsistent,
                },
            )
        },
    }
}

/// The lines as byte sequences.
pub open spec fn lines_view(lines: Seq<Vec<u8>>) -> Seq<Seq<u8>> {
    Seq::new(lines.len(), |i: int| lines[i]@)
}

/// The first line at or after `pos` that is not blank, or the end.
fn skip_blank_lines(lines: &Vec<Vec<u8>>, pos: usize) -> (r: usize)
    requires
        pos <= lines@.len(),
    ensures
        r == next_line(lines_view(lines@), pos as int),
{
    let mut p = pos;
    while p < lines.len() && is_blank_line(lines[p].as_slice())
        invariant
            pos <= p <= lines@.len(),
            next_line(lines_view(lines@), pos as int) == next_line(lines_view(lines@), p as int),
        decreases lines@.len() - p,
    {
        p += 1;
    }
    p
}

/// Byte-wise equality.
fn bytes_equal(a: &[u8], b: &[u8]) -> (r: bool)
    ensures
        r == (a@ == b@),
{
    if a.len() != b.len() {
        return false;
    }
    let mut i: usize = 0;
    while i < a.len()
        invariant
            a@.len() == b@.len(),
            i <= a@.len(),
            forall|j: int| 0 <= j < i ==> a@[j] == b@[j],
        decreases a@.len() - i,
    {
        if a[i] != b[i] {
            return false;
        }
        i += 1;
    }
    assert(a@ =~= b@);
    true
}

/// Reads one item of the configuration from `pos` on.
fn parse_item(lines: &Vec<Vec<u8>>, pos: usize, text: &'static str, kind: Expect) -> (r: Result<
    (Option<u64>, usize),
    ConfigErrorKind,
>)
    requires
        pos <= lines@.len(),
    ensures
        match (r, read_item(lines_view(lines@), pos as int, text, kind)) {
            (Ok((v, n)), Ok((sv, sn))) => v == sv && n == sn && n <= lines@.len(),
            (Err(e), Err(se)) => e == se,
            _ => false,
        },
{
    let p = skip_blank_lines(lines, pos);
    if p >= lines.len() {
        return Err(ConfigErrorKind::MissingLine);
    }
    let line = lines[p].as_slice();
    let expected = text.as_bytes();
    match kind {
        Expect::Header => {
            let t = trim_bytes(line, 0, line.len());
            proof {
                assert(line@.subrange(0, line@.len() as int) == line@);
            }
            if bytes_equal(t.as_slice(), expected) {
                Ok((None, p + 1))
            } else {
                Err(ConfigErrorKind::WrongHeader)
            }
        },
        _ => match split_key_value(line) {
            Some((k, v)) => {
                if !bytes_equal(k.as_slice(), expected) {
                    Err(ConfigErrorKind::WrongKey)
                } else if kind == Expect::Number {
                    match parse_decimal(v.as_slice()) {
                        Some(n) => if is_power_of_two(n) {
                            Ok((Some(n), p + 1))
                        } else {
                            Err(ConfigErrorKind::NotPowerOfTwo)
                        },
                        None => Err(ConfigErrorKind::NotANumber),
                    }
                } else {
                    match parse_flag(v.as_slice()) {
                        Some(b) => Ok((Some(if b { 1u64 } else { 0u64 }), p + 1)),
                        None => Err(ConfigErrorKind::NotAFlag),
                    }
                }
            },
            None => Err(ConfigErrorKind::WrongKey),
        },
    }
}

/// The values read so far followed by what the rest of the items give.
pub open spec fn prepend(values: Seq<u64>, rest: Result<Seq<u64>, ConfigError>) -> Result<
    Seq<u64>,
    ConfigError,
> {
    match rest {
        Err(e) => Err(e),
        Ok(r) => Ok(values + r),
    }
}

/// Parses a configuration text given as its lines: four sections (TLB,
/// page table, data cache, second-level cache) of `key: value` lines under
/// their headers, then three flags; blank lines are skipped. Returns the
/// configuration, or the header or key expected where the text first goes
/// wrong, and why.
pub fn parse_config(lines: &Vec<Vec<u8>>) -> (r: Result<SimulatorConfig, ConfigError>)
    ensures
        r == config_of(lines_view(lines@)),
{
    let ghost view = lines_view(lines@);
    let mut grammar: Vec<(&'static str, Expect)> = Vec::new();
    grammar.push(("Data TLB configuration", Expect::Header));
    grammar.push(("Number of sets", Expect::Number));
    grammar.push(("Set size", Expect::Number));
    grammar.push(("Page Table configuration", Expect::Header));
    grammar.push(("Number of virtual pages", Expect::Number));
    grammar.push(("Number of physical pages", Expect::Number));
    grammar.push(("Page size", Expect::Number));
    grammar.push(("Data Cache configuration", Expect::Header));
    grammar.push(("Number of sets", Expect::Number));
    grammar.push(("Set size", Expect::Number));
    grammar.push(("Line size", Expect::Number));
    grammar.push(("Write through/no write allocate", Expect::Flag));
    grammar.push(("L2 Cache configuration", Expect::Header));
    grammar.push(("Number of sets", Expect::Number));
    grammar.push(("Set size", Expect::Number));
    grammar.push(("Line size", Expect::Number));
    grammar.push(("Write through/no write allocate", Expect::Flag));
    grammar.push(("Virtual addresses", Expect::Flag));
    grammar.push(("TLB", Expect::Flag));
    grammar.push(("L2 cache", Expect::Flag));
    assert(grammar@ =~= config_grammar());
    let mut values: Vec<u64> = Vec::new();
    let mut pos: usize = 0;
    let mut i: usize = 0;
    while i < grammar.len()
        invariant
            grammar@ == config_grammar(),
            view == lines_view(lines@),
            pos <= lines@.len(),
            i <= grammar@.len(),
            read_items(view, grammar@, 0, 0) == prepend(values@, read_items(view, grammar@, i as int, pos as int)),
        decreases grammar@.len() - i,
    {
        let (text, kind) = grammar[i];
        match parse_item(lines, pos, text, kind) {
            Err(kind) => {
                return Err(ConfigError { expected: text, kind });
            },
            Ok((value, next)) => {
                let ghost before = values@;
                match value {
                    Some(v) => {
                        values.push(v);
                        proof {
                            let rest = read_items(view, grammar@, i + 1, next as int);
                            if rest is Ok {
                                assert(before + (seq![v] + rest->Ok_0) =~= values@ + rest->Ok_0);
                            }
                        }
                    },
                    None => {},
                }
                pos = next;
            },
        }
        i += 1;
    }
    proof {
        assert(read_items(view, grammar@, i as int, pos as int) == Ok::<Seq<u64>, ConfigError>(Seq::empty()));
        assert(values@ + Seq::<u64>::empty() =~= values@);
    }
    if values.len() != 16 {
        return Err(ConfigError { expected: "L2 cache", kind: ConfigErrorKind::Inconsistent });
    }
    let config = SimulatorConfig {
        tlb: TLBConfig { number_of_sets: values[0], set_size: values[1] },
        page_table: PageTableConfig {
            number_of_virtual_pages: values[2],
            number_of_physical_pages: values[3],
            page_size: values[4],
        },
        data_cache: DataCacheConfig {
            number_of_sets: values[5],
            set_size: values[6],
            line_size: values[7],
            write_through: values[8] == 1,
        },
        l2_cache: L2CacheConfig {
            number_of_sets: values[9],
            set_size: values[10],
            line_size: values[11],
            write_through: values[12] == 1,
        },
        virtual_addresses_enabled: values[13] == 1,
        tlb_enabled: values[14] == 1,
        l2_cache_enabled: values[15] == 1,
    };
    match config.find_fault() {
        Some(field) => Err(ConfigError { expected: field, kind: ConfigErrorKind::Inconsistent }),
        None => Ok(config),
    }
}

/// The operations of a trace text from line `pos` on: blank lines are
/// skipped, and the first line that is not an operation ends the trace.
pub open spec fn trace_from(lines: Seq<Seq<u8>>, pos: int) -> Seq<Operation>
    decreases lines.len() - pos,
{
    if pos < 0 || pos >= lines.len() {
        Seq::empty()
    } else if is_blank(lines[pos]) {
        trace_from(lines, pos + 1)
    } else {
        match operation_of(lines[pos]) {
            Some(op) => seq![op] + trace_from(lines, pos + 1),
            None => Seq::empty(),
        }
    }
}

proof fn lemma_trace_skips_blank(lines: Seq<Seq<u8>>, pos: int)
    requires
        0 <= pos,
    ensures
        trace_from(lines, pos) == trace_from(lines, next_line(lines, pos)),
    decreases lines.len() - pos,
{
    if pos < lines.len() && is_blank(lines[pos]) {
        lemma_trace_skips_blank(lines, pos + 1);
    }
}

proof fn lemma_next_line_bounds(lines: Seq<Seq<u8>>, pos: int)
    requires
        0 <= pos,
    ensures
        pos <= next_line(lines, pos) || pos > lines.len(),
        next_line(lines, pos) <= lines.len(),
        next_line(lines, pos) < lines.len() ==> !is_blank(lines[next_line(lines, pos)]),
    decreases lines.len() - pos,
{
    if pos < lines.len() && is_blank(lines[pos]) {
        lemma_next_line_bounds(lines, pos + 1);
    }
}

/// Parses a trace text given as its lines into the operations it names.
pub fn parse_trace(lines: &Vec<Vec<u8>>) -> (r: Trace)
    ensures
        r.operations@ == trace_from(lines_view(lines@), 0),
{
    let ghost view = lines_view(lines@);
    let mut trace = Trace::new();
    let mut pos: usize = 0;
    let mut done = false;
    while !done
        invariant
            view == lines_view(lines@),
            pos <= lines@.len(),
            !done ==> trace_from(view, 0) == trace.operations@ + trace_from(view, pos as int),
            done ==> trace_from(view, 0) == trace.operations@,
        decreases lines@.len() - pos + (if done { 0int } else { 1int }),
    {
        let p = skip_blank_lines(lines, pos);
        proof {
            lemma_next_line_bounds(view, pos as int);
            lemma_trace_skips_blank(view, pos as int);
        }
        if p >= lines.len() {
            done = true;
            proof {
                assert(trace.operations@ + Seq::<Operation>::empty() =~= trace.operations@);
            }
        } else {
            assert(view[p as int] == lines@[p as int]@);
            assert(!is_blank(view[p as int]));
            match parse_operation(lines[p].as_slice()) {
                Some(op) => {
                    let ghost before = trace.operations@;
                    trace.push(op);
                    proof {
                        assert(before + (seq![op] + trace_from(view, p + 1)) =~= trace.operations@ + trace_from(view, p + 1));
                    }
                    pos = p + 1;
                },
                None => {
                    done = true;
                    proof {
                        assert(trace.operations@ + Seq::<Operation>::empty() =~= trace.operations@);
                    }
                },
            }
        }
    }
    trace
}

proof fn lemma_trim_start_suffix(s: Seq<u8>, i: int)
    requires
        0 <= i <= s.len(),
        forall|j: int| 0 <= j < i ==> is_space(s[j]),
    ensures
        trim_start(s) == trim_start(s.subrange(i, s.len() as int)),
    decreases i,
{
    if i > 0 {
        assert(s.drop_first().subrange(i - 1, s.drop_first().len() as int) == s.subrange(
            i,
            s.len() as int,
        ));
        lemma_trim_start_suffix(s.drop_first(), i - 1);
    } else {
        assert(s.subrange(0, s.len() as int) == s);
    }
}

proof fn lemma_trim_end_prefix(s: Seq<u8>, e: int)
    requires
        0 <= e <= s.len(),
        forall|j: int| e <= j < s.len() ==> is_space(s[j]),
    ensures
        trim_end(s) == trim_end(s.subrange(0, e)),
    decreases s.len() - e,
{
    if e < s.len() {
        assert(s.drop_last().subrange(0, e) == s.subrange(0, e));
        lemma_trim_end_prefix(s.drop_last(), e);
    } else {
        assert(s.subrange(0, e) == s);
    }
}

/// The bytes `s[start..end]` without leading and trailing whitespace.
pub fn trim_bytes(s: &[u8], start: usize, end: usize) -> (r: Vec<u8>)
    requires
        start <= end <= s@.len(),
    ensures
        r@ == trim(s@.subrange(start as int, end as int)),
{
    let ghost part = s@.subrange(start as int, end as int);
    let mut i = start;
    while i < end && (s[i] == 32 || (9 <= s[i] && s[i] <= 13))
        invariant
            start <= i <= end <= s@.len(),
            part == s@.subrange(start as int, end as int),
            forall|j: int| start <= j < i ==> is_space(s@[j]),
        decreases end - i,
    {
        i += 1;
    }
    proof {
        lemma_trim_start_suffix(part, i - start);
        assert(part.subrange(i - start, part.len() as int) == s@.subrange(i as int, end as int));
        if i < end {
            assert(!is_space(s@[i as int]));
        }
        let rest = s@.subrange(i as int, end as int);
        assert(trim_start(rest) == rest);
    }
    let mut e = end;
    while e > i && (s[e - 1] == 32 || (9 <= s[e - 1] && s[e - 1] <= 13))
        invariant
            start <= i <= e <= end <= s@.len(),
            forall|j: int| e <= j < end ==> is_space(s@[j]),
        decreases e - i,
    {
        e -= 1;
    }
    proof {
        let rest = s@.subrange(i as int, end as int);
        lemma_trim_end_prefix(rest, e - i);
        assert(rest.subrange(0, e - i) == s@.subrange(i as int, e as int));
        let kept = s@.subrange(i as int, e as int);
        if e > i {
            assert(kept.last() == s@[e - 1]);
        }
        assert(trim_end(kept) == kept);
    }
    let mut r: Vec<u8> = Vec::new();
    let mut k = i;
    while k < e
        invariant
            i <= k <= e <= s@.len(),
            r@ == s@.subrange(i as int, k as int),
        decreases e - k,
    {
        r.push(s[k]);
        k += 1;
        assert(r@ =~= s@.subrange(i as int, k as int));
    }
    r
}

/// Is the line blank?
pub fn is_blank_line(line: &[u8]) -> (r: bool)
    ensures
        r == is_blank(line@),
{
    let t = trim_bytes(line, 0, line.len());
    proof {
        assert(line@.subrange(0, line@.len() as int) == line@);
    }
    t.len() == 0
}

/// Splits a line `key: value` with exactly one colon into its trimmed key
/// and value.
pub fn split_key_value(line: &[u8]) -> (r: Option<(Vec<u8>, Vec<u8>)>)
    ensures
        r is Some == key_value(line@) is Some,
        r matches Some((k, v)) ==> key_value(line@) == Some((k@, v@)),
{
    let mut count: usize = 0;
    let mut position: usize = 0;
    let mut i: usize = 0;
    while i < line.len()
        invariant
            i <= line@.len(),
            count == colon_count(line@.subrange(0, i as int)),
            count <= i,
            count >= 1 ==> position < i && line@[position as int] == 58 && forall|j: int|
                0 <= j < position ==> line@[j] != 58,
            count == 0 ==> forall|j: int| 0 <= j < i ==> line@[j] != 58,
        decreases line@.len() - i,
    {
        assert(line@.subrange(0, i + 1).drop_last() == line@.subrange(0, i as int));
        if line[i] == 58 {
            if count == 0 {
                position = i;
            }
            count += 1;
        }
        i += 1;
    }
    proof {
        assert(line@.subrange(0, line@.len() as int) == line@);
    }
    if count != 1 {
        return None;
    }
    proof {
        let k = first_colon(line@);
        assert(0 <= position < line@.len() && line@[position as int] == 58 && forall|j: int|
            0 <= j < position ==> line@[j] != 58);
        if k < position {
            assert(line@[k] != 58);
        } else if k > position {
            assert(line@[position as int] != 58);
        }
    }
    let key = trim_bytes(line, 0, position);
    let value = trim_bytes(line, position + 1, line.len());
    Some((key, value))
}

/// The decimal number the bytes spell, if they are all digits and it fits
/// in 64 bits.
pub fn parse_decimal(s: &[u8]) -> (r: Option<u64>)
    ensures
        r == decimal_of(s@),
{
    if s.len() == 0 {
        return None;
    }
    let mut value: u64 = 0;
    let mut i: usize = 0;
    while i < s.len()
        invariant
            i <= s@.len(),
            s@.len() > 0,
            all_decimal(s@.subrange(0, i as int)),
            value == decimal_value(s@.subrange(0, i as int)),
        decreases s@.len() - i,
    {
        let b = s[i];
        let ghost prefix = s@.subrange(0, i + 1);
        assert(prefix.drop_last() == s@.subrange(0, i as int));
        if b < 48 || b > 57 {
            proof {
                lemma_not_all_decimal(s@, i as int);
            }
            return None;
        }
        let digit = (b - 48) as u64;
        if value > (u64::MAX - digit) / 10 {
            proof {
                lemma_decimal_grows(s@, (i + 1) as int);
                assert(decimal_value(prefix) > u64::MAX) by (nonlinear_arith)
                    requires
                        decimal_value(prefix) == value * 10 + digit,
                        value > (u64::MAX - digit) / 10,
                ;
            }
            return None;
        }
        value = value * 10 + digit;
        i += 1;
    }
    proof {
        assert(s@.subrange(0, s@.len() as int) == s@);
    }
    Some(value)
}

/// The hexadecimal number the bytes spell, if they are all hexadecimal
/// digits and it fits in 64 bits.
pub fn parse_hexadecimal(s: &[u8]) -> (r: Option<u64>)
    ensures
        r == hex_of(s@),
{
    if s.len() == 0 {
        return None;
    }
    let mut value: u64 = 0;
    let mut i: usize = 0;
    while i < s.len()
        invariant
            i <= s@.len(),
            s@.len() > 0,
            all_hex(s@.subrange(0, i as int)),
            value == hex_value(s@.subrange(0, i as int)),
        decreases s@.len() - i,
    {
        let b = s[i];
        let ghost prefix = s@.subrange(0, i + 1);
        assert(prefix.drop_last() == s@.subrange(0, i as int));
        let digit: u64 = if 48 <= b && b <= 57 {
            (b - 48) as u64
        } else if 97 <= b && b <= 102 {
            (b - 87) as u64
        } else if 65 <= b && b <= 70 {
            (b - 55) as u64
        } else {
            proof {
                lemma_not_all_hex(s@, i as int);
            }
            return None;
        };
        if value > (u64::MAX - digit) / 16 {
            proof {
                lemma_hex_grows(s@, (i + 1) as int);
                assert(hex_value(prefix) > u64::MAX) by (nonlinear_arith)
                    requires
                        hex_value(prefix) == value * 16 + digit,
                        value > (u64::MAX - digit) / 16,
                ;
            }
            return None;
        }
        value = value * 16 + digit;
        i += 1;
    }
    proof {
        assert(s@.subrange(0, s@.len() as int) == s@);
    }
    Some(value)
}

proof fn lemma_not_all_decimal(s: Seq<u8>, i: int)
    requires
        0 <= i < s.len(),
        !(48 <= s[i] <= 57),
    ensures
        decimal_of(s) is None,
{
}

proof fn lemma_not_all_hex(s: Seq<u8>, i: int)
    requires
        0 <= i < s.len(),
        !is_hex_digit(s[i]),
    ensures
        hex_of(s) is None,
{
}

/// A decimal number never shrinks as digits are appended.
proof fn lemma_decimal_grows(s: Seq<u8>, n: int)
    requires
        0 <= n <= s.len(),
    ensures
        decimal_value(s.subrange(0, n)) <= decimal_value(s),
    decreases s.len() - n,
{
    if n < s.len() {
        lemma_decimal_grows(s, n + 1);
        assert(s.subrange(0, n + 1).drop_last() == s.subrange(0, n));
    } else {
        assert(s.subrange(0, n) == s);
    }
}

/// A hexadecimal number never shrinks as digits are appended.
proof fn lemma_hex_grows(s: Seq<u8>, n: int)
    requires
        0 <= n <= s.len(),
    ensures
        hex_value(s.subrange(0, n)) <= hex_value(s),
    decreases s.len() - n,
{
    if n < s.len() {
        lemma_hex_grows(s, n + 1);
        assert(s.subrange(0, n + 1).drop_last() == s.subrange(0, n));
    } else {
        assert(s.subrange(0, n) == s);
    }
}

/// The flag the bytes spell: `y`/`Y` or `n`/`N`.
pub fn parse_flag(s: &[u8]) -> (r: Option<bool>)
    ensures
        r == flag_of(s@),
{
    if s.len() != 1 {
        proof {
            if s@.len() != 1 {
                assert(!(s@ =~= seq![121u8]) && !(s@ =~= seq![89u8]));
                assert(!(s@ =~= seq![110u8]) && !(s@ =~= seq![78u8]));
            }
        }
        return None;
    }
    let b = s[0];
    proof {
        assert(s@ =~= seq![b]);
    }
    if b == 121 || b == 89 {
        Some(true)
    } else if b == 110 || b == 78 {
        Some(false)
    } else {
        None
    }
}

/// The operation a trace line `R:<hex>` or `W:<hex>` names; `None` for a
/// line of any other shape.
pub fn parse_operation(line: &[u8]) -> (r: Option<Operation>)
    ensures
        r == operation_of(line@),
{
    match split_key_value(line) {
        Some((key, value)) => match parse_hexadecimal(value.as_slice()) {
            Some(address) => {
                if key.len() == 1 && key[0] == 82 {
                    proof {
                        assert(key@ =~= seq![82u8]);
                    }
                    Some(Operation::Read(address))
                } else if key.len() == 1 && key[0] == 87 {
                    proof {
                        assert(key@ =~= seq![87u8]);
                    }
                    Some(Operation::Write(address))
                } else {
                    proof {
                        if key@ =~= seq![82u8] {
                            assert(key@[0] == 82);
                        }
                        if key@ =~= seq![87u8] {
                            assert(key@[0] == 87);
                        }
                    }
                    None
                }
            },
            None => None,
        },
        None => None,
    }
}

} // verus!
