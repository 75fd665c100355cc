//! Option scanning for the simulation driver. The caller hands in the
//! argument vector; only its interpretation lives here: `-s`/
//! `--simulations` and `-t`/`--threads` each take a decimal value, a
//! value that does not parse falls back to the default, and anything
//! else is ignored.

use vstd::prelude::*;

verus! {

/// Simulations run when no `-s` option is given.
pub const DEFAULT_SIMULATIONS: u64 = 100_000_000;

/// Worker threads used when no `-t` option is given.
pub const DEFAULT_THREADS: u64 = 1;

pub open spec fn is_digit(c: char) -> bool {
    48 <= c as u32 && c as u32 <= 57
}

pub open spec fn digit_val(c: char) -> int {
    (c as u32) as int - 48
}

pub open spec fn all_digits(s: Seq<char>) -> bool {
    forall|i: int| 0 <= i < s.len() ==> is_digit(#[trigger] s[i])
}

/// The number the digit string `s` writes in decimal.
pub open spec fn digits_val(s: Seq<char>) -> int
    decreases s.len(),
{
    if s.len() == 0 {
        0
    } else {
        digits_val(s.drop_last()) * 10 + digit_val(s.last())
    }
}

/// What `u64` parsing accepts: an optional leading `+`, then at least
/// one digit, all digits, with the value fitting in a `u64`.
pub open spec fn spec_parse_u64(s: Seq<char>) -> Option<u64> {
    let body = if s.len() > 0 && s[0] == '+' {
        s.drop_first()
    } else {
        s
    };
    if body.len() > 0 && all_digits(body) && digits_val(body) <= u64::MAX {
        Some(digits_val(body) as u64)
    } else {
        None
    }
}

proof fn lemma_digits_val_nonneg(s: Seq<char>)
    requires
        all_digits(s),
    ensures
        digits_val(s) >= 0,
    decreases s.len(),
{
    if s.len() > 0 {
        assert(all_digits(s.drop_last()));
        lemma_digits_val_nonneg(s.drop_last());
    }
}

/// Appending one digit steps the value by one decimal place.
proof fn lemma_digits_val_take_step(s: Seq<char>, k: int)
    requires
        0 <= k < s.len(),
    ensures
        digits_val(s.take(k + 1)) == digits_val(s.take(k)) * 10 + digit_val(s[k]),
{
    assert(s.take(k + 1).drop_last() =~= s.take(k));
    assert(s.take(k + 1).last() == s[k]);
}

/// A digit string is worth at least any of its prefixes.
proof fn lemma_digits_val_prefix_le(s: Seq<char>, k: int)
    requires
        all_digits(s),
        0 <= k <= s.len(),
    ensures
        digits_val(s.take(k)) <= digits_val(s),
    decreases s.len() - k,
{
    if k == s.len() {
        assert(s.take(k) =~= s);
    } else {
        assert(all_digits(s.take(k)));
        lemma_digits_val_nonneg(s.take(k));
        lemma_digits_val_take_step(s, k);
        lemma_digits_val_prefix_le(s, k + 1);
    }
}

/// Parse a decimal `u64` as the standard library does: an optional
/// leading `+`, then digits only; `None` on anything else or on a value
/// past `u64::MAX`.
pub fn parse_u64(s: &str) -> (r: Option<u64>)
    ensures
        r == spec_parse_u64(s@),
{
    let n = s.unicode_len();
    let start: usize = if n > 0 && s.get_char(0) == '+' {
        1
    } else {
        0
    };
    let ghost body = if s@.len() > 0 && s@[0] == '+' {
        s@.drop_first()
    } else {
        s@
    };
    assert(body =~= s@.subrange(start as int, n as int));
    if start == n {
        return None;
    }
    let mut value: u64 = 0;
    let mut i: usize = start;
    while i < n
        invariant
            start <= i <= n,
            start < n,
            n == s@.len(),
            body == (if s@.len() > 0 && s@[0] == '+' {
                s@.drop_first()
            } else {
                s@
            }),
            body == s@.subrange(start as int, n as int),
            all_digits(body.take(i - start)),
            value == digits_val(body.take(i - start)),
        decreases n - i,
    {
        let c = s.get_char(i);
        let cu = c as u32;
        if cu < 48 || cu > 57 {
            assert(!is_digit(body[i - start]));
            return None;
        }
        let d = (cu - 48) as u64;
        proof {
            assert(body.take(i - start + 1).drop_last() =~= body.take(i - start));
            assert(body.take(i - start + 1).last() == body[i - start]);
        }
        let next = match value.checked_mul(10) {
            Some(v) => v.checked_add(d),
            None => None,
        };
        match next {
            Some(v) => {
                value = v;
            },
            None => {
                proof {
                    if all_digits(body) {
                        lemma_digits_val_nonneg(body.take(i - start));
                        lemma_digits_val_take_step(body, i - start);
                        lemma_digits_val_prefix_le(body, i - start + 1);
                    }
                }
                return None;
            },
        }
        i = i + 1;
    }
    proof {
        assert(body.take(n - start) =~= body);
    }
    Some(value)
}

/// The value a flag's argument contributes: what it parses to, or the
/// default when it does not parse.
pub open spec fn value_or(arg: Seq<char>, default: u64) -> u64 {
    match spec_parse_u64(arg) {
        Some(v) => v,
        None => default,
    }
}

/// One pass over the argument views from position `i` with the settings
/// collected so far. A recognised flag followed by a value consumes two
/// positions; anything else is skipped.
pub open spec fn scan_args(args: Seq<Seq<char>>, i: int, total: u64, threads: u64) -> (u64, u64)
    decreases args.len() - i,
{
    if i < 0 || i >= args.len() {
        (total, threads)
    } else if (args[i] == "-s"@ || args[i] == "--simulations"@) && i + 1 < args.len() {
        scan_args(args, i + 2, value_or(args[i + 1], DEFAULT_SIMULATIONS), threads)
    } else if (args[i] == "-t"@ || args[i] == "--threads"@) && i + 1 < args.len() {
        scan_args(args, i + 2, total, value_or(args[i + 1], DEFAULT_THREADS))
    } else {
        scan_args(args, i + 1, total, threads)
    }
}

/// What an argument vector asks for: the simulation count and the thread
/// count, scanned from position 1 (position 0 names the program), with
/// the defaults where no flag says otherwise.
pub open spec fn spec_parse_args(args: Seq<Seq<char>>) -> (u64, u64) {
    scan_args(args, 1, DEFAULT_SIMULATIONS, DEFAULT_THREADS)
}

/// Read the simulation count and the thread count out of an argument
/// vector, `args[0]` being the program name.
pub fn parse_args(args: &Vec<String>) -> (r: (u64, u64))
    ensures
        r == spec_parse_args(args@.map_values(|a: String| a@)),
{
    let flag_sims_short = "-s".to_owned();
    let flag_sims_long = "--simulations".to_owned();
    let flag_threads_short = "-t".to_owned();
    let flag_threads_long = "--threads".to_owned();

    let ghost views = args@.map_values(|a: String| a@);

    let mut total: u64 = DEFAULT_SIMULATIONS;
    let mut threads: u64 = DEFAULT_THREADS;
    let mut i: usize = 1;
    while i < args.len()
        invariant
            1 <= i,
            views == args@.map_values(|a: String| a@),
            flag_sims_short@ == "-s"@,
            flag_sims_long@ == "--simulations"@,
            flag_threads_short@ == "-t"@,
            flag_threads_long@ == "--threads"@,
            scan_args(views, i as int, total, threads) == spec_parse_args(views),
        decreases args@.len() - i,
    {
        let arg = &args[i];
        if (*arg == flag_sims_short || *arg == flag_sims_long) && i + 1 < args.len() {
            total = match parse_u64(args[i + 1].as_str()) {
                Some(v) => v,
                None => DEFAULT_SIMULATIONS,
            };
            i = i + 2;
        } else if (*arg == flag_threads_short || *arg == flag_threads_long) && i + 1 < args.len() {
            threads = match parse_u64(args[i + 1].as_str()) {
                Some(v) => v,
                None => DEFAULT_THREADS,
            };
            i = i + 2;
        } else {
            i = i + 1;
        }
    }
    (total, threads)
}

} // verus!
