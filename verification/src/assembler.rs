//! The textual assembler: maps one mnemonic per line to its opcode byte,
//! with an 8-byte little-endian immediate after `push` and `dupp` and a
//! 1-byte immediate after `int`.  Blank lines and lines opening with `;`
//! are skipped; a numeric argument is decimal, or hexadecimal when it opens
//! with `0x` (prefix trimming strips every leading repetition of `0x`, not
//! just the first).  [`assemble`] requires a source on which every
//! line assembles; anything else is out of its domain.

use vstd::prelude::*;
use vstd::string::StrSliceExecFns;
use vstd::string::StringExecFns;
use vstd::string::StringExecFnsIsAscii;

use crate::lexer::{is_digit, is_digit_char, is_space, is_space_char};
use crate::vm::{i64_cast, i64_from_u64, le_bytes_of_i64, push_le_bytes};

verus! {

/// The position of the first line feed at or after `i`, or the end.
pub open spec fn line_end(s: Seq<char>, i: int) -> int
    decreases s.len() - i,
{
    if i < 0 || i >= s.len() || s[i] == '\n' {
        i
    } else {
        line_end(s, i + 1)
    }
}

/// A line end lies between its start and the end of the text.
pub proof fn lemma_line_end_bounds(s: Seq<char>, i: int)
    requires
        0 <= i <= s.len(),
    ensures
        i <= line_end(s, i) <= s.len(),
        line_end(s, i) < s.len() ==> s[line_end(s, i)] == '\n',
    decreases s.len() - i,
{
    if i < s.len() && s[i] != '\n' {
        lemma_line_end_bounds(s, i + 1);
    }
}

/// A line without its trailing carriage return, if it has one.
pub open spec fn strip_cr(l: Seq<char>) -> Seq<char> {
    if l.len() > 0 && l.last() == '\r' {
        l.drop_last()
    } else {
        l
    }
}

/// The first position at or after `j` holding a non-space, or the end.
pub open spec fn skip_spaces(l: Seq<char>, j: int) -> int
    decreases l.len() - j,
{
    if j < 0 || j >= l.len() || !is_space_char(l[j]) {
        j
    } else {
        skip_spaces(l, j + 1)
    }
}

/// The first position at or after `j` holding a space, or the end.
pub open spec fn token_end(l: Seq<char>, j: int) -> int
    decreases l.len() - j,
{
    if j < 0 || j >= l.len() || is_space_char(l[j]) {
        j
    } else {
        token_end(l, j + 1)
    }
}

/// Both scans stay between their start and the end of the line.
pub proof fn lemma_scan_bounds(l: Seq<char>, j: int)
    requires
        0 <= j <= l.len(),
    ensures
        j <= skip_spaces(l, j) <= l.len(),
        j <= token_end(l, j) <= l.len(),
    decreases l.len() - j,
{
    if j < l.len() {
        lemma_scan_bounds(l, j + 1);
    }
}

/// The value of one character as a base-16 digit, or 16 when it is none.
pub open spec fn hex_digit_val(c: char) -> int {
    if is_digit_char(c) {
        c as u32 - '0' as u32
    } else if 'a' <= c && c <= 'f' {
        c as u32 - 'a' as u32 + 10
    } else if 'A' <= c && c <= 'F' {
        c as u32 - 'A' as u32 + 10
    } else {
        16
    }
}

/// A non-empty digit body whose every character is a digit of the radix.
pub open spec fn valid_digits(ds: Seq<char>, radix: int) -> bool {
    ds.len() > 0 && forall|j: int| 0 <= j < ds.len() ==> hex_digit_val(#[trigger] ds[j]) < radix
}

/// The value of a digit body, most significant digit first.
pub open spec fn radix_val(ds: Seq<char>, radix: int) -> int
    decreases ds.len(),
{
    if ds.len() == 0 {
        0
    } else {
        radix_val(ds.drop_last(), radix) * radix + hex_digit_val(ds.last())
    }
}

/// An integer literal: an optional sign, then a non-empty digit body.
pub open spec fn parse_int(w: Seq<char>, radix: int) -> Option<int> {
    if w.len() == 0 {
        None
    } else {
        let ds = if w[0] == '-' || w[0] == '+' {
            w.skip(1)
        } else {
            w
        };
        if !valid_digits(ds, radix) {
            None
        } else if w[0] == '-' {
            Some(-radix_val(ds, radix))
        } else {
            Some(radix_val(ds, radix))
        }
    }
}

/// Whether a word opens with the hexadecimal marker.
pub open spec fn starts_0x(w: Seq<char>) -> bool {
    w.len() >= 2 && w[0] == '0' && w[1] == 'x'
}

/// A word with every leading repetition of the hexadecimal marker removed.
pub open spec fn strip_0x(w: Seq<char>) -> Seq<char>
    decreases w.len(),
{
    if starts_0x(w) {
        strip_0x(w.skip(2))
    } else {
        w
    }
}

/// The numeric value of an argument word: hexadecimal when it opens with
/// the marker, decimal otherwise.
pub open spec fn arg_num(w: Seq<char>) -> Option<int> {
    if starts_0x(w) {
        parse_int(strip_0x(w), 16)
    } else {
        parse_int(w, 10)
    }
}

/// A line of nothing but whitespace, which the assembler skips.
pub open spec fn is_blank_line(l: Seq<char>) -> bool {
    forall|j: int| 0 <= j < l.len() ==> is_space_char(#[trigger] l[j])
}

/// A line the assembler skips: blank, or opening with the comment mark.
pub open spec fn line_skipped(l: Seq<char>) -> bool {
    is_blank_line(l) || (l.len() > 0 && l[0] == ';')
}

/// Where the mnemonic starts.
pub open spec fn op_start(l: Seq<char>) -> int {
    skip_spaces(l, 0)
}

/// The mnemonic word of a line.
pub open spec fn op_str(l: Seq<char>) -> Seq<char> {
    l.subrange(op_start(l), token_end(l, op_start(l)))
}

/// Where the argument word starts, at the end when there is none.
pub open spec fn arg_start(l: Seq<char>) -> int {
    skip_spaces(l, token_end(l, op_start(l)))
}

/// The argument word of a line.
pub open spec fn arg_str(l: Seq<char>) -> Seq<char> {
    l.subrange(arg_start(l), token_end(l, arg_start(l)))
}

/// Whether the line has an argument word at all.
pub open spec fn has_arg(l: Seq<char>) -> bool {
    arg_start(l) < l.len()
}

/// The opcode byte of a mnemonic that takes no operand, if it is one.
pub open spec fn zero_op_code(op: Seq<char>) -> Option<u8> {
    if op == "nop"@ {
        Some(0x00u8)
    } else if op == "hlt"@ {
        Some(0x01u8)
    } else if op == "pop"@ {
        Some(0x03u8)
    } else if op == "add"@ {
        Some(0x04u8)
    } else if op == "mul"@ {
        Some(0x05u8)
    } else if op == "sub"@ {
        Some(0x06u8)
    } else if op == "div"@ {
        Some(0x07u8)
    } else if op == "jmp"@ {
        Some(0x08u8)
    } else if op == "loadu8"@ {
        Some(0x09u8)
    } else if op == "storeu8"@ {
        Some(0x0au8)
    } else if op == "swap"@ {
        Some(0x0bu8)
    } else if op == "dup"@ {
        Some(0x0cu8)
    } else if op == "call"@ {
        Some(0x0fu8)
    } else if op == "ret"@ {
        Some(0x10u8)
    } else {
        None
    }
}

/// Whether one line assembles: it is skipped, its mnemonic takes no
/// operand, or it is `push`, `dupp` or `int` with an argument word whose
/// value is in range for the immediate.
pub open spec fn line_ok(l: Seq<char>) -> bool {
    if line_skipped(l) {
        true
    } else if zero_op_code(op_str(l)) is Some {
        true
    } else if op_str(l) == "push"@ || op_str(l) == "dupp"@ {
        &&& has_arg(l)
        &&& arg_num(arg_str(l)) matches Some(v) && i64::MIN <= v <= i64::MAX
    } else if op_str(l) == "int"@ {
        &&& has_arg(l)
        &&& arg_num(arg_str(l)) matches Some(v) && 0 <= v <= 255
    } else {
        false
    }
}

/// The signed immediate of an argument word in range.
pub open spec fn num_as_i64(w: Seq<char>) -> i64 {
    arg_num(w)->Some_0 as i64
}

/// The byte immediate of an argument word in range.
pub open spec fn num_as_u8(w: Seq<char>) -> u8 {
    arg_num(w)->Some_0 as u8
}

/// The bytes one line assembles to.
pub open spec fn line_bytes(l: Seq<char>) -> Seq<u8> {
    if line_skipped(l) {
        Seq::empty()
    } else {
        match zero_op_code(op_str(l)) {
            Some(b) => seq![b],
            None => if op_str(l) == "push"@ {
                seq![0x02u8] + le_bytes_of_i64(num_as_i64(arg_str(l)))
            } else if op_str(l) == "dupp"@ {
                seq![0x0du8] + le_bytes_of_i64(num_as_i64(arg_str(l)))
            } else if op_str(l) == "int"@ {
                seq![0x0eu8, num_as_u8(arg_str(l))]
            } else {
                Seq::empty()
            },
        }
    }
}

/// Whether every line from position `i` (a line start) on assembles.
pub open spec fn asm_ok(s: Seq<char>, i: int) -> bool
    decreases s.len() - i,
    when 0 <= i <= s.len()
    via asm_ok_decreases
{
    if i >= s.len() {
        true
    } else {
        let e = line_end(s, i);
        line_ok(strip_cr(s.subrange(i, e))) && asm_ok(
            s,
            if e < s.len() {
                e + 1
            } else {
                e
            },
        )
    }
}

#[via_fn]
proof fn asm_ok_decreases(s: Seq<char>, i: int) {
    if 0 <= i < s.len() {
        lemma_line_end_bounds(s, i);
    }
}

/// The bytes assembled from position `i` (a line start) on.
pub open spec fn asm_bytes(s: Seq<char>, i: int) -> Seq<u8>
    decreases s.len() - i,
    when 0 <= i <= s.len()
    via asm_bytes_decreases
{
    if i >= s.len() {
        Seq::empty()
    } else {
        let e = line_end(s, i);
        line_bytes(strip_cr(s.subrange(i, e))) + asm_bytes(
            s,
            if e < s.len() {
                e + 1
            } else {
                e
            },
        )
    }
}

#[via_fn]
proof fn asm_bytes_decreases(s: Seq<char>, i: int) {
    if 0 <= i < s.len() {
        lemma_line_end_bounds(s, i);
    }
}

/// Digit values are non-negative and a prefix of a digit body never
/// exceeds the value of the whole body.
proof fn lemma_radix_val_prefix(ds: Seq<char>, k: int, radix: int)
    requires
        0 <= k <= ds.len(),
        2 <= radix <= 16,
        forall|j: int| 0 <= j < ds.len() ==> 0 <= hex_digit_val(#[trigger] ds[j]) < radix,
    ensures
        0 <= radix_val(ds.take(k), radix) <= radix_val(ds, radix),
    decreases ds.len() - k,
{
    lemma_radix_val_nonneg(ds.take(k), radix);
    if k < ds.len() {
        lemma_radix_val_prefix(ds, k + 1, radix);
        assert(ds.take(k + 1).drop_last() =~= ds.take(k));
        assert(radix_val(ds.take(k + 1), radix) == radix_val(ds.take(k), radix) * radix
            + hex_digit_val(ds[k]));
        assert(radix_val(ds.take(k), radix) * radix >= radix_val(ds.take(k), radix)) by (
        nonlinear_arith)
            requires
                radix_val(ds.take(k), radix) >= 0,
                radix >= 2,
        ;
    } else {
        assert(ds.take(k) =~= ds);
    }
}

/// The value of a digit body is non-negative.
proof fn lemma_radix_val_nonneg(ds: Seq<char>, radix: int)
    requires
        2 <= radix <= 16,
        forall|j: int| 0 <= j < ds.len() ==> 0 <= hex_digit_val(#[trigger] ds[j]) < radix,
    ensures
        radix_val(ds, radix) >= 0,
    decreases ds.len(),
{
    if ds.len() > 0 {
        lemma_radix_val_nonneg(ds.drop_last(), radix);
        assert(radix_val(ds.drop_last(), radix) * radix >= 0) by (nonlinear_arith)
            requires
                radix_val(ds.drop_last(), radix) >= 0,
                radix >= 2,
        ;
    }
}

/// The value of one character as a base-16 digit.
fn hex_digit_value(c: char) -> (d: u8)
    requires
        hex_digit_val(c) < 16,
    ensures
        d == hex_digit_val(c),
{
    if '0' <= c && c <= '9' {
        (c as u8) - ('0' as u8)
    } else if 'a' <= c && c <= 'f' {
        (c as u8) - ('a' as u8) + 10
    } else {
        (c as u8) - ('A' as u8) + 10
    }
}

/// Whether one character is a digit of the radix.
fn is_radix_digit(c: char, radix: u8) -> (r: bool)
    requires
        radix == 10 || radix == 16,
    ensures
        r == (hex_digit_val(c) < radix),
{
    if radix == 10 {
        is_digit(c)
    } else {
        is_digit(c) || ('a' <= c && c <= 'f') || ('A' <= c && c <= 'F')
    }
}

/// Parse the digit body `w[p..b]` with its sign, given its value lies in
/// the signed 64-bit range.
fn parse_signed(line: &str, p: usize, b: usize, radix: u8) -> (v: i64)
    requires
        line.is_ascii(),
        p <= b <= line@.len(),
        radix == 10 || radix == 16,
        parse_int(line@.subrange(p as int, b as int), radix as int) matches Some(n) && i64::MIN
            <= n <= i64::MAX,
    ensures
        v as int == parse_int(line@.subrange(p as int, b as int), radix as int)->Some_0,
{
    let ghost w = line@.subrange(p as int, b as int);
    let c0 = line.get_char(p);
    let neg = c0 == '-';
    let ds_start = if neg || c0 == '+' {
        p + 1
    } else {
        p
    };
    let ghost ds = if w[0] == '-' || w[0] == '+' {
        w.skip(1)
    } else {
        w
    };
    proof {
        assert(ds =~= line@.subrange(ds_start as int, b as int));
        assert(valid_digits(ds, radix as int));
        assert(forall|j: int| 0 <= j < ds.len() ==> 0 <= hex_digit_val(#[trigger] ds[j]));
        lemma_radix_val_prefix(ds, ds.len() as int, radix as int);
        assert(ds.take(ds.len() as int) =~= ds);
    }
    let ghost full = radix_val(ds, radix as int);
    proof {
        if neg {
            assert(full <= 0x8000_0000_0000_0000int) by {
                assert(parse_int(w, radix as int)->Some_0 == -full);
            }
        } else {
            assert(full <= i64::MAX);
        }
    }
    let mut mag: u64 = 0;
    let mut q = ds_start;
    proof {
        assert(ds.take(0) =~= Seq::<char>::empty());
    }
    while q < b
        invariant
            line.is_ascii(),
            ds_start <= q <= b <= line@.len(),
            ds =~= line@.subrange(ds_start as int, b as int),
            forall|j: int| 0 <= j < ds.len() ==> 0 <= hex_digit_val(#[trigger] ds[j]) < radix,
            radix == 10 || radix == 16,
            full == radix_val(ds, radix as int),
            full <= 0x8000_0000_0000_0000int,
            mag == radix_val(ds.take(q as int - ds_start), radix as int),
            mag <= full,
        decreases b - q,
    {
        let c = line.get_char(q);
        proof {
            assert(ds[q as int - ds_start] == c);
            lemma_radix_val_prefix(ds, q as int - ds_start + 1, radix as int);
            assert(ds.take(q as int - ds_start + 1).drop_last() =~= ds.take(q as int - ds_start));
            assert(ds.take(q as int - ds_start + 1).last() == ds[q as int - ds_start]);
        }
        let d = if is_radix_digit(c, radix) {
            hex_digit_value(c)
        } else {
            unreached()
        };
        mag = mag * (radix as u64) + (d as u64);
        q += 1;
    }
    proof {
        assert(ds.take(b as int - ds_start) =~= ds);
        assert(mag == full);
    }
    if neg {
        let v = i64_cast(0u64.wrapping_sub(mag));
        proof {
            if mag == 0 {
                assert(v as int == -full);
            } else {
                assert(0u64.wrapping_sub(mag) == 0x1_0000_0000_0000_0000 - mag);
                assert(v as int == -full);
            }
        }
        v
    } else {
        let v = mag as i64;
        v
    }
}

/// Parse one argument word: hexadecimal when it opens with the marker
/// (every leading repetition stripped), decimal otherwise.
fn parse_arg(line: &str, a: usize, b: usize) -> (v: i64)
    requires
        line.is_ascii(),
        a <= b <= line@.len(),
        arg_num(line@.subrange(a as int, b as int)) matches Some(n) && i64::MIN <= n <= i64::MAX,
    ensures
        v as int == arg_num(line@.subrange(a as int, b as int))->Some_0,
{
    let ghost w0 = line@.subrange(a as int, b as int);
    let hex = b - a >= 2 && line.get_char(a) == '0' && line.get_char(a + 1) == 'x';
    proof {
        assert(starts_0x(w0) == hex);
    }
    if hex {
        let mut p = a;
        while b - p >= 2 && line.get_char(p) == '0' && line.get_char(p + 1) == 'x'
            invariant
                line.is_ascii(),
                a <= p <= b <= line@.len(),
                strip_0x(line@.subrange(p as int, b as int)) == strip_0x(w0),
            decreases b - p,
        {
            proof {
                assert(line@.subrange(p as int, b as int).skip(2) =~= line@.subrange(
                    p as int + 2,
                    b as int,
                ));
            }
            p += 2;
        }
        proof {
            assert(!starts_0x(line@.subrange(p as int, b as int)));
            assert(line@.subrange(p as int, b as int) == strip_0x(w0));
        }
        parse_signed(line, p, b, 16)
    } else {
        parse_signed(line, a, b, 10)
    }
}

/// Assemble one line, appending its bytes.
fn assemble_line(line: &str, out: &mut Vec<u8>)
    requires
        line.is_ascii(),
        line_ok(line@),
    ensures
        final(out)@ == old(out)@ + line_bytes(line@),
{
    let n = line.unicode_len();
    let mut j: usize = 0;
    while j < n && is_space(line.get_char(j))
        invariant
            line.is_ascii(),
            n == line@.len(),
            0 <= j <= n,
            skip_spaces(line@, 0) == skip_spaces(line@, j as int),
            forall|k: int| 0 <= k < j ==> is_space_char(#[trigger] line@[k]),
        decreases n - j,
    {
        j += 1;
    }
    if j == n {
        proof {
            assert(is_blank_line(line@));
            assert(final(out)@ =~= old(out)@ + line_bytes(line@));
        }
        return ;
    }
    if line.get_char(0) == ';' {
        proof {
            assert(line_skipped(line@));
            assert(final(out)@ =~= old(out)@ + line_bytes(line@));
        }
        return ;
    }
    proof {
        assert(!is_blank_line(line@)) by {
            assert(!is_space_char(line@[j as int]));
        }
        assert(!line_skipped(line@));
        assert(j as int == op_start(line@));
        lemma_scan_bounds(line@, j as int);
    }
    let s0 = j;
    let mut e0 = s0;
    while e0 < n && !is_space(line.get_char(e0))
        invariant
            line.is_ascii(),
            n == line@.len(),
            s0 <= e0 <= n,
            token_end(line@, s0 as int) == token_end(line@, e0 as int),
        decreases n - e0,
    {
        e0 += 1;
    }
    proof {
        assert(e0 as int == token_end(line@, s0 as int));
        lemma_scan_bounds(line@, e0 as int);
    }
    let op = String::from_str(line.substring_ascii(s0, e0));
    proof {
        assert(op@ == op_str(line@));
        reveal_strlit("nop");
        reveal_strlit("hlt");
        reveal_strlit("pop");
        reveal_strlit("add");
        reveal_strlit("mul");
        reveal_strlit("sub");
        reveal_strlit("div");
        reveal_strlit("jmp");
        reveal_strlit("loadu8");
        reveal_strlit("storeu8");
        reveal_strlit("swap");
        reveal_strlit("dup");
        reveal_strlit("call");
        reveal_strlit("ret");
        reveal_strlit("push");
        reveal_strlit("dupp");
        reveal_strlit("int");
    }
    let zero_code: Option<u8> = if op == String::from_str("nop") {
        Some(0x00)
    } else if op == String::from_str("hlt") {
        Some(0x01)
    } else if op == String::from_str("pop") {
        Some(0x03)
    } else if op == String::from_str("add") {
        Some(0x04)
    } else if op == String::from_str("mul") {
        Some(0x05)
    } else if op == String::from_str("sub") {
        Some(0x06)
    } else if op == String::from_str("div") {
        Some(0x07)
    } else if op == String::from_str("jmp") {
        Some(0x08)
    } else if op == String::from_str("loadu8") {
        Some(0x09)
    } else if op == String::from_str("storeu8") {
        Some(0x0a)
    } else if op == String::from_str("swap") {
        Some(0x0b)
    } else if op == String::from_str("dup") {
        Some(0x0c)
    } else if op == String::from_str("call") {
        Some(0x0f)
    } else if op == String::from_str("ret") {
        Some(0x10)
    } else {
        None
    };
    proof {
        assert(zero_code == zero_op_code(op_str(line@)));
    }
    match zero_code {
        Some(b) => {
            out.push(b);
            proof {
                assert(final(out)@ =~= old(out)@ + line_bytes(line@));
            }
            return ;
        },
        None => {},
    }
    let is_push = op == String::from_str("push");
    let is_dupp = op == String::from_str("dupp");
    let is_int = op == String::from_str("int");
    proof {
        assert(is_push || is_dupp || is_int);
    }
    let mut s1 = e0;
    while s1 < n && is_space(line.get_char(s1))
        invariant
            line.is_ascii(),
            n == line@.len(),
            e0 <= s1 <= n,
            skip_spaces(line@, e0 as int) == skip_spaces(line@, s1 as int),
        decreases n - s1,
    {
        s1 += 1;
    }
    proof {
        assert(s1 as int == arg_start(line@));
        assert(has_arg(line@));
        assert(s1 < n);
        lemma_scan_bounds(line@, s1 as int);
    }
    let mut e1 = s1;
    while e1 < n && !is_space(line.get_char(e1))
        invariant
            line.is_ascii(),
            n == line@.len(),
            s1 <= e1 <= n,
            token_end(line@, s1 as int) == token_end(line@, e1 as int),
        decreases n - e1,
    {
        e1 += 1;
    }
    proof {
        assert(e1 as int == token_end(line@, s1 as int));
        assert(line@.subrange(s1 as int, e1 as int) == arg_str(line@));
    }
    if is_push {
        let v = parse_arg(line, s1, e1);
        out.push(0x02);
        push_le_bytes(out, v);
        proof {
            assert(v == num_as_i64(arg_str(line@)));
            assert(final(out)@ =~= old(out)@ + line_bytes(line@));
        }
    } else if is_dupp {
        let v = parse_arg(line, s1, e1);
        out.push(0x0d);
        push_le_bytes(out, v);
        proof {
            assert(v == num_as_i64(arg_str(line@)));
            assert(final(out)@ =~= old(out)@ + line_bytes(line@));
        }
    } else {
        let v = parse_arg(line, s1, e1);
        out.push(0x0e);
        out.push(v as u8);
        proof {
            assert(v as u8 == num_as_u8(arg_str(line@)));
            assert(final(out)@ =~= old(out)@ + line_bytes(line@));
        }
    }
}

/// Assemble a source text, line by line, exactly as [`asm_bytes`] says.
/// Lines are split at line feeds, with a carriage return before one
/// dropped; blank and comment lines assemble to nothing.
pub fn assemble(source: String) -> (out: Vec<u8>)
    requires
        source.is_ascii(),
        asm_ok(source@, 0),
    ensures
        out@ == asm_bytes(source@, 0),
{
    let s = source.as_str();
    let n = s.unicode_len();
    let mut out: Vec<u8> = Vec::new();
    let mut i: usize = 0;
    while i < n
        invariant
            source.is_ascii(),
            s@ == source@,
            n == source@.len(),
            0 <= i <= n,
            asm_ok(source@, i as int),
            asm_bytes(source@, 0) == out@ + asm_bytes(source@, i as int),
        decreases n - i,
    {
        let mut e = i;
        while e < n && s.get_char(e) != '\n'
            invariant
                source.is_ascii(),
                s@ == source@,
                n == source@.len(),
                i <= e <= n,
                line_end(source@, i as int) == line_end(source@, e as int),
            decreases n - e,
        {
            e += 1;
        }
        proof {
            assert(e as int == line_end(source@, i as int));
        }
        let le = if e > i && s.get_char(e - 1) == '\r' {
            e - 1
        } else {
            e
        };
        proof {
            assert(source@.subrange(i as int, le as int) =~= strip_cr(
                source@.subrange(i as int, e as int),
            ));
        }
        let line = s.substring_ascii(i, le);
        let ghost prev = out@;
        assemble_line(line, &mut out);
        let next = if e < n {
            e + 1
        } else {
            e
        };
        proof {
            assert(out@ == prev + line_bytes(strip_cr(source@.subrange(i as int, e as int))));
            assert(asm_bytes(source@, i as int) == line_bytes(
                strip_cr(source@.subrange(i as int, e as int)),
            ) + asm_bytes(source@, next as int));
            assert(asm_bytes(source@, 0) =~= out@ + asm_bytes(source@, next as int));
        }
        i = next;
    }
    proof {
        assert(out@ =~= asm_bytes(source@, 0));
    }
    out
}

} // verus!
