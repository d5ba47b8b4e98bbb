//! The text form of reports: labelled lines of fixed layout. Numbers are
//! written in decimal; ratios are written to nine places, rounded down.

use vstd::prelude::*;
use vstd::string::*;
use crate::analysis::{Average, Report};
use crate::clock::Elapsed;
use crate::inspect::{Test, WORKLOAD_WRITES};
use crate::stream::Transforms;
use crate::Suit;

verus! {

/// The character of the decimal digit `d`.
pub open spec fn digit_char(d: int) -> char {
    if d == 0 {
        '0'
    } else if d == 1 {
        '1'
    } else if d == 2 {
        '2'
    } else if d == 3 {
        '3'
    } else if d == 4 {
        '4'
    } else if d == 5 {
        '5'
    } else if d == 6 {
        '6'
    } else if d == 7 {
        '7'
    } else if d == 8 {
        '8'
    } else {
        '9'
    }
}

/// The decimal digits of `n`, without leading zeros.
pub open spec fn decimal(n: nat) -> Seq<char>
    decreases n,
{
    if n < 10 {
        seq![digit_char(n as int)]
    } else {
        decimal(n / 10).push(digit_char((n % 10) as int))
    }
}

/// The last `width` decimal digits of `n`, with leading zeros.
pub open spec fn padded(n: nat, width: nat) -> Seq<char>
    decreases width,
{
    if width == 0 {
        Seq::empty()
    } else {
        padded(n / 10, (width - 1) as nat).push(digit_char((n % 10) as int))
    }
}

/// One in the unit of ratios: a billionth.
pub open spec fn billion() -> nat {
    1_000_000_000
}

/// A number of billionths as a decimal fraction with nine places.
pub open spec fn fraction(billionths: nat) -> Seq<char> {
    decimal(billionths / billion()) + seq!['.'] + padded(billionths % billion(), 9)
}

/// The text of a truth value.
pub open spec fn truth(b: bool) -> Seq<char> {
    if b {
        "true"@
    } else {
        "false"@
    }
}

/// The mean of the sample on the unit interval, in billionths, rounded
/// down. It is meant for a mean of at least one value.
pub open spec fn mean_billionths(mean: Average) -> nat {
    ((mean.sum * billion()) / (mean.count * u64::MAX)) as nat
}

/// The text of a mean: a fraction, or `NaN` for the mean of no values.
pub open spec fn mean_text(mean: Average) -> Seq<char> {
    if mean.count == 0 {
        "NaN"@
    } else {
        fraction(mean_billionths(mean))
    }
}

/// The nanoseconds of a span of time.
pub open spec fn nanoseconds(span: Elapsed) -> nat {
    span.secs as nat * billion() + span.nanos as nat
}

/// How many writes of the workload fit into one second, rounded down, when
/// all of them took `span`. It is meant for a span that is not zero.
pub open spec fn writes_per_second(span: Elapsed) -> nat {
    ((WORKLOAD_WRITES * billion()) / (nanoseconds(span) as int)) as nat
}

/// The text of the throughput: a number, or `inf` where no time passed.
pub open spec fn throughput_text(span: Elapsed) -> Seq<char> {
    if nanoseconds(span) == 0 {
        "inf"@
    } else {
        decimal(writes_per_second(span))
    }
}

/// The text of a span of time.
pub open spec fn elapsed_text(span: Elapsed) -> Seq<char> {
    decimal(span.secs as nat) + " s. "@ + decimal(span.nanos as nat) + " ns."@
}

/// The digit `d` as text.
fn digit_str(d: u8) -> (text: &'static str)
    requires
        d < 10,
    ensures
        text@ == seq![digit_char(d as int)],
{
    proof {
        reveal_strlit("0");
        reveal_strlit("1");
        reveal_strlit("2");
        reveal_strlit("3");
        reveal_strlit("4");
        reveal_strlit("5");
        reveal_strlit("6");
        reveal_strlit("7");
        reveal_strlit("8");
        reveal_strlit("9");
    }
    let text = if d == 0 {
        "0"
    } else if d == 1 {
        "1"
    } else if d == 2 {
        "2"
    } else if d == 3 {
        "3"
    } else if d == 4 {
        "4"
    } else if d == 5 {
        "5"
    } else if d == 6 {
        "6"
    } else if d == 7 {
        "7"
    } else if d == 8 {
        "8"
    } else {
        "9"
    };
    assert(text@ =~= seq![digit_char(d as int)]);
    text
}

/// Writes `n` in decimal.
pub fn decimal_string(n: u128) -> (text: String)
    ensures
        text@ == decimal(n as nat),
    decreases n,
{
    if n < 10 {
        String::from_str(digit_str(n as u8))
    } else {
        let mut text = decimal_string(n / 10);
        text.append(digit_str((n % 10) as u8));
        assert(text@ =~= decimal(n as nat));
        text
    }
}

/// Writes the last `width` digits of `n`, with leading zeros.
fn padded_string(n: u128, width: u8) -> (text: String)
    ensures
        text@ == padded(n as nat, width as nat),
    decreases width,
{
    if width == 0 {
        let text = String::new();
        assert(text@ =~= padded(n as nat, 0));
        text
    } else {
        let mut text = padded_string(n / 10, width - 1);
        text.append(digit_str((n % 10) as u8));
        assert(text@ =~= padded(n as nat, width as nat));
        text
    }
}

/// Writes a number of billionths as a decimal fraction with nine places.
pub fn fraction_string(billionths: u128) -> (text: String)
    ensures
        text@ == fraction(billionths as nat),
{
    let mut text = decimal_string(billionths / 1_000_000_000);
    proof {
        reveal_strlit(".");
    }
    text.append(".");
    assert("."@ =~= seq!['.']);
    let places = padded_string(billionths % 1_000_000_000, 9);
    text.append(places.as_str());
    text
}

/// Scales a ratio: `numerator * scale / denominator`, rounded down, without
/// a product that leaves 128 bits.
fn scaled_ratio(numerator: u128, denominator: u128, scale: u128) -> (ratio: u128)
    requires
        0 < denominator,
        scale <= 1_000_000_000,
        numerator / denominator <= 0x2_0000_0000_0000_0000,
        denominator <= 0x1_0000_0000_0000_0000_0000_0000,
    ensures
        ratio == (numerator * scale) / denominator as int,
{
    let whole = numerator / denominator;
    let rest = numerator % denominator;
    assert(whole * scale <= 0x2_0000_0000_0000_0000 * 1_000_000_000) by (nonlinear_arith)
        requires
            whole <= 0x2_0000_0000_0000_0000,
            scale <= 1_000_000_000,
    ;
    assert(rest * scale <= 0x1_0000_0000_0000_0000_0000_0000 * 1_000_000_000) by (nonlinear_arith)
        requires
            rest < denominator,
            denominator <= 0x1_0000_0000_0000_0000_0000_0000,
            scale <= 1_000_000_000,
    ;
    proof {
        let d = denominator as int;
        let k = scale as int;
        vstd::arithmetic::div_mod::lemma_fundamental_div_mod(numerator as int, d);
        assert(numerator * k == d * (whole * k) + rest * k) by (nonlinear_arith)
            requires
                numerator == d * whole + rest,
        ;
        assert(rest * k >= 0) by (nonlinear_arith)
            requires
                rest >= 0,
                k >= 0,
        ;
        vstd::arithmetic::div_mod::lemma_div_multiples_vanish_fancy(whole * k, 0, d);
        vstd::arithmetic::div_mod::lemma_hoist_over_denominator(rest * k, whole * k, d as nat);
        assert(d * (whole * k) == (whole * k) * d) by (nonlinear_arith);
    }
    whole * scale + (rest * scale) / denominator
}

impl Average {
    /// Writes the mean on the unit interval, or `NaN` for no values.
    pub fn render(&self) -> (text: String)
        ensures
            text@ == mean_text(*self),
    {
        if self.count == 0 {
            String::from_str("NaN")
        } else {
            let denominator: u128 = self.count as u128 * u64::MAX as u128;
            proof {
                vstd::arithmetic::div_mod::lemma_div_is_ordered_by_denominator(
                    self.sum as int,
                    0x8000_0000_0000_0000,
                    denominator as int,
                );
            }
            fraction_string(scaled_ratio(self.sum, denominator, 1_000_000_000))
        }
    }
}

/// One line of a report: a label, a value, and the end of the line.
pub open spec fn line(label: Seq<char>, value: Seq<char>) -> Seq<char> {
    label + value + "\n"@
}

/// Writes one line of a report.
fn line_string(label: &str, value: &str) -> (text: String)
    ensures
        text@ == line(label@, value@),
{
    let mut text = String::from_str(label);
    text.append(value);
    text.append("\n");
    text
}

/// Writes a truth value.
fn truth_str(b: bool) -> (text: &'static str)
    ensures
        text@ == truth(b),
{
    if b {
        "true"
    } else {
        "false"
    }
}

impl Elapsed {
    /// The span in nanoseconds.
    pub fn nanoseconds(&self) -> (nanos: u128)
        ensures
            nanos == nanoseconds(*self),
    {
        self.secs as u128 * 1_000_000_000 + self.nanos as u128
    }

    /// Writes the span as seconds and nanoseconds.
    pub fn render(&self) -> (text: String)
        ensures
            text@ == elapsed_text(*self),
    {
        let mut text = decimal_string(self.secs as u128);
        text.append(" s. ");
        text.append(decimal_string(self.nanos as u128).as_str());
        text.append(" ns.");
        text
    }

    /// Writes how many writes of the workload fit into one second, when all
    /// of them took this span; `inf` where the span is zero.
    pub fn render_throughput(&self) -> (text: String)
        ensures
            text@ == throughput_text(*self),
    {
        let nanos = self.nanoseconds();
        if nanos == 0 {
            String::from_str("inf")
        } else {
            decimal_string((WORKLOAD_WRITES as u128 * 1_000_000_000) / nanos)
        }
    }
}

impl Report {
    /// The text of the report: eight labelled lines, and the time.
    pub open spec fn text(&self) -> Seq<char> {
        line("bytes \u{3c7}\u{b2}:           "@, decimal(self.byte_dist as nat)) + line(
            "bytes completeness: "@,
            decimal(self.byte_filled as nat),
        ) + line("bit fairness:       "@, truth(self.bit_fair)) + line(
            "maximal bucket:     "@,
            decimal(self.buckets_max_collisions as nat),
        ) + line("buckets filled:     "@, decimal(self.buckets_filled as nat)) + line(
            "buckets \u{3c7}\u{b2}:         "@,
            decimal(self.buckets_dist as nat),
        ) + line("average:            "@, mean_text(self.average)) + line(
            "AND zero:           "@,
            decimal(self.and_zero as nat),
        ) + "time:               "@ + elapsed_text(self.time)
    }

    /// Writes the report.
    pub fn render(&self) -> (text: String)
        ensures
            text@ == self.text(),
    {
        let mut text = line_string(
            "bytes \u{3c7}\u{b2}:           ",
            decimal_string(self.byte_dist as u128).as_str(),
        );
        text.append(
            line_string(
                "bytes completeness: ",
                decimal_string(self.byte_filled as u128).as_str(),
            ).as_str(),
        );
        text.append(line_string("bit fairness:       ", truth_str(self.bit_fair)).as_str());
        text.append(
            line_string(
                "maximal bucket:     ",
                decimal_string(self.buckets_max_collisions as u128).as_str(),
            ).as_str(),
        );
        text.append(
            line_string(
                "buckets filled:     ",
                decimal_string(self.buckets_filled as u128).as_str(),
            ).as_str(),
        );
        text.append(
            line_string(
                "buckets \u{3c7}\u{b2}:         ",
                decimal_string(self.buckets_dist as u128).as_str(),
            ).as_str(),
        );
        text.append(line_string("average:            ", self.average.render().as_str()).as_str());
        text.append(
            line_string(
                "AND zero:           ",
                decimal_string(self.and_zero as u128).as_str(),
            ).as_str(),
        );
        text.append("time:               ");
        text.append(self.time.render().as_str());
        text
    }
}

impl Transforms {
    /// The text of the seven reports, each under its heading.
    pub open spec fn text(&self) -> Seq<char> {
        line("~ plain\n"@, self.plain.text()) + line("~ XOR fold\n"@, self.xor.text()) + line(
            "~ add fold\n"@,
            self.add.text(),
        ) + line("~ multiply by prime\n"@, self.prime_multiply.text()) + line(
            "~ double hash\n"@,
            self.double.text(),
        ) + line("~ Hadamard transform\n"@, self.had.text()) + line(
            "~ skip every two\n"@,
            self.skip.text(),
        )
    }

    /// Writes the seven reports.
    pub fn render(&self) -> (text: String)
        ensures
            text@ == self.text(),
    {
        let mut text = line_string("~ plain\n", self.plain.render().as_str());
        text.append(line_string("~ XOR fold\n", self.xor.render().as_str()).as_str());
        text.append(line_string("~ add fold\n", self.add.render().as_str()).as_str());
        text.append(
            line_string("~ multiply by prime\n", self.prime_multiply.render().as_str()).as_str(),
        );
        text.append(line_string("~ double hash\n", self.double.render().as_str()).as_str());
        text.append(line_string("~ Hadamard transform\n", self.had.render().as_str()).as_str());
        text.append(line_string("~ skip every two\n", self.skip.render().as_str()).as_str());
        text
    }
}

impl Test {
    /// The text of the outcome: the pipelines by corpus, the analysis of
    /// repeated hashing, the properties, the throughput, and the score.
    #[verifier::opaque]
    pub open spec fn text(&self) -> Seq<char> {
        "- Stream quality\n"@ + line("[[English dictionary]]\n"@, self.dict.text()) + line(
            "[[Random numbers]]\n"@,
            self.rand.text(),
        ) + line("[[Random ASCII]]\n"@, self.ascii.text()) + line(
            "[[Poor random]]\n"@,
            self.bad_rand.text(),
        ) + line("[[Integers]]\n"@, self.num.text()) + line(
            "[[Prime numbers]]\n"@,
            self.primes.text(),
        ) + line("- Rehashing quality\n"@, self.rehash.text()) + line(
            "- Properties\nzero sensitive:     "@,
            truth(self.zero_sensitive),
        ) + line("deterministic:      "@, truth(self.deterministic)) + line(
            "- Performance\nwrites/s:           "@,
            throughput_text(self.workload_time),
        ) + line("total time:         "@, elapsed_text(self.total_time))
            + "- Final result\npoints:             "@ + decimal(self.points as nat)
    }

    /// Writes the outcome.
    pub fn render(&self) -> (text: String)
        ensures
            text@ == self.text(),
    {
        reveal(Test::text);
        let mut text = String::from_str("- Stream quality\n");
        text.append(line_string("[[English dictionary]]\n", self.dict.render().as_str()).as_str());
        text.append(line_string("[[Random numbers]]\n", self.rand.render().as_str()).as_str());
        text.append(line_string("[[Random ASCII]]\n", self.ascii.render().as_str()).as_str());
        text.append(line_string("[[Poor random]]\n", self.bad_rand.render().as_str()).as_str());
        text.append(line_string("[[Integers]]\n", self.num.render().as_str()).as_str());
        text.append(line_string("[[Prime numbers]]\n", self.primes.render().as_str()).as_str());
        text.append(line_string("- Rehashing quality\n", self.rehash.render().as_str()).as_str());
        text.append(
            line_string(
                "- Properties\nzero sensitive:     ",
                truth_str(self.zero_sensitive),
            ).as_str(),
        );
        text.append(line_string("deterministic:      ", truth_str(self.deterministic)).as_str());
        text.append(
            line_string(
                "- Performance\nwrites/s:           ",
                self.workload_time.render_throughput().as_str(),
            ).as_str(),
        );
        text.append(line_string("total time:         ", self.total_time.render().as_str()).as_str());
        text.append("- Final result\npoints:             ");
        text.append(decimal_string(self.points as u128).as_str());
        text
    }
}

/// The text of the first `upto` inspections, each under its name.
pub open spec fn entries_text(entries: Seq<(&'static str, Test)>, upto: int) -> Seq<char>
    decreases upto,
{
    if upto <= 0 {
        Seq::empty()
    } else {
        entries_text(entries, upto - 1) + line(
            "--- "@ + entries[upto - 1].0@ + " ---\n"@,
            entries[upto - 1].1.text(),
        )
    }
}

impl Suit {
    /// The text of the suit: every inspection under its name, in order.
    pub open spec fn text(&self) -> Seq<char> {
        entries_text(self.entries(), self.entries().len() as int)
    }

    /// Writes the suit.
    pub fn render(&self) -> (text: String)
        ensures
            text@ == self.text(),
    {
        let mut text = String::new();
        let mut i: usize = 0;
        while i < self.len()
            invariant
                i <= self.entries().len(),
                text@ == entries_text(self.entries(), i as int),
            decreases self.entries().len() - i,
        {
            let mut heading = String::from_str("--- ");
            heading.append(self.name(i));
            heading.append(" ---\n");
            text.append(line_string(heading.as_str(), self.outcome(i).render().as_str()).as_str());
            i += 1;
        }
        text
    }
}

} // verus!
