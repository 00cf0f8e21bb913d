use std::io::Write;
use vstd::prelude::*;

use crate::bytes::{decimal, format_decimal};

verus! {

/// A sink for log lines.
pub trait Logger {
    fn log(&self, msg: &str);
}

/// Writes each log line to standard output.
pub struct PrintlnLogger;

impl Logger for PrintlnLogger {
    fn log(&self, msg: &str) {
        let mut out = stdout_handle();
        write_line(&mut out, msg);
    }
}

#[verifier::external_type_specification]
#[verifier::external_body]
pub struct ExStdout(std::io::Stdout);

/// Relies on std::io::stdout: a handle to the process's standard output.
#[verifier::external_body]
fn stdout_handle() -> std::io::Stdout {
    std::io::stdout()
}

/// Relies on std's writeln! on a standard output handle; a failed write is
/// ignored.
#[verifier::external_body]
fn write_line(out: &mut std::io::Stdout, msg: &str) {
    let _ = writeln!(out, "{}", msg);
}

/// Relies on String::from_utf8: ASCII bytes are valid UTF-8, and each byte
/// becomes the character with that code.
#[verifier::external_body]
fn ascii_string(b: Vec<u8>) -> (r: String)
    requires
        forall|i: int| 0 <= i < b@.len() ==> #[trigger] b@[i] < 128,
    ensures
        r@ == b@.map_values(|c: u8| c as char),
{
    match String::from_utf8(b) {
        Ok(s) => s,
        Err(_) => String::new(),
    }
}

/// The line `"{x}^2 == {y}"`, with `x` and `y` in decimal.
pub open spec fn square_text(x: int, y: nat) -> Seq<u8> {
    (if x < 0 {
        seq![45u8]
    } else {
        Seq::<u8>::empty()
    }) + decimal(if x < 0 {
        (-x) as nat
    } else {
        x as nat
    }) + seq![94u8, 50u8, 32u8, 61u8, 61u8, 32u8] + decimal(y)
}

proof fn lemma_decimal_digits(n: nat)
    ensures
        forall|i: int| 0 <= i < decimal(n).len() ==> 48 <= #[trigger] decimal(n)[i] <= 57,
    decreases n,
{
    if n >= 10 {
        lemma_decimal_digits(n / 10);
        assert(decimal(n) == decimal(n / 10).push((48 + n % 10) as u8));
    }
}

/// Renders the line that `square` logs.
pub fn square_line(x: i32, y: i32) -> (r: String)
    requires
        y >= 0,
    ensures
        r@ == square_text(x as int, y as nat).map_values(|c: u8| c as char),
{
    let mut b: Vec<u8> = Vec::new();
    if x < 0 {
        b.push(45u8);
    }
    let magnitude: u64 = if x < 0 {
        (-(x as i64)) as u64
    } else {
        x as u64
    };
    let mut digits = format_decimal(magnitude);
    b.append(&mut digits);
    let mut middle: Vec<u8> = vec![94u8, 50u8, 32u8, 61u8, 61u8, 32u8];
    b.append(&mut middle);
    let mut result = format_decimal(y as u64);
    b.append(&mut result);
    proof {
        lemma_decimal_digits(magnitude as nat);
        lemma_decimal_digits(y as nat);
        assert(b@ =~= square_text(x as int, y as nat));
    }
    ascii_string(b)
}

/// Squares `x` and logs `square_line(x, x * x)`.
pub fn square<L: Logger>(x: i32, logger: L) -> (r: i32)
    requires
        x * x <= i32::MAX,
    ensures
        r == x * x,
{
    assert(0 <= x * x) by (nonlinear_arith);
    let y = x * x;
    let line = square_line(x, y);
    logger.log(line.as_str());
    y
}

} // verus!
