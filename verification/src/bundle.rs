//! The generated artifact bundle served to the browser: the script text,
//! the binary payload, and the two fragment registries, together with the
//! helpers that describe the bundle to the operator.

use vstd::prelude::*;
use vstd::string::StrSliceExecFns;
use vstd::string::StringExecFns;

use crate::snippets::{ModuleMap, SnippetGroups};
use crate::strutil::{dec_rep, first_occurrence, split_once_str, u64_to_string};

verus! {

/// The externally generated browser-loadable bundle: script text, binary
/// payload, and the two disjoint fragment registries. Immutable once
/// generated; the server owns it for the process lifetime.
pub struct WasmBindgenOutput {
    pub js: String,
    pub wasm: Vec<u8>,
    pub snippets: SnippetGroups,
    pub local_modules: ModuleMap,
}

/// The schema versions quoted in a generator error message: the version
/// recorded in the input file, then the version this binary understands.
/// The message carries them after fixed marker phrases, each value running
/// to the following line break.
pub open spec fn spec_extract_versions(msg: Seq<char>) -> Option<(Seq<char>, Seq<char>)> {
    match first_occurrence(msg, "rust wasm file schema version: "@) {
        None => None,
        Some(i) => {
            let rest = msg.skip(i + "rust wasm file schema version: "@.len());
            match first_occurrence(rest, "\n     this binary schema version: "@) {
                None => None,
                Some(j) => {
                    let wasm_version = rest.take(j);
                    let rest2 = rest.skip(j + "\n     this binary schema version: "@.len());
                    match first_occurrence(rest2, "\n"@) {
                        None => None,
                        Some(k) => Some((wasm_version, rest2.take(k))),
                    }
                },
            }
        },
    }
}

/// Pull the two schema versions out of a generator error message, if the
/// message is of the known shape.
pub fn extract_error_message_versions(msg: &str) -> (r: Option<(String, String)>)
    ensures
        match r {
            Some(p) => spec_extract_versions(msg@) matches Some(q) && p.0@ == q.0 && p.1@ == q.1,
            None => spec_extract_versions(msg@) is None,
        },
{
    proof {
        reveal_strlit("rust wasm file schema version: ");
        reveal_strlit("\n     this binary schema version: ");
        reveal_strlit("\n");
    }
    let step1 = match split_once_str(msg, "rust wasm file schema version: ") {
        Some(p) => p.1,
        None => {
            return None;
        },
    };
    let step2 = match split_once_str(step1.as_str(), "\n     this binary schema version: ") {
        Some(p) => p,
        None => {
            return None;
        },
    };
    let wasm_version = step2.0;
    let step3 = match split_once_str(step2.1.as_str(), "\n") {
        Some(p) => p.0,
        None => {
            return None;
        },
    };
    Some((wasm_version, step3))
}

/// Hundredths rendered as a number with exactly two decimal places.
pub open spec fn two_decimals(h: nat) -> Seq<char> {
    dec_rep(h / 100) + seq!['.'] + (if h % 100 < 10 {
        seq!['0']
    } else {
        Seq::<char>::empty()
    }) + dec_rep(h % 100)
}

/// The quotient `num / den` rounded to the nearest integer, with a half
/// rounded to the even neighbour, as decimal formatting does.
pub open spec fn round_half_even(num: nat, den: nat) -> nat {
    let q = num / den;
    let r = num % den;
    if 2 * r < den {
        q
    } else if 2 * r > den {
        q + 1
    } else if q % 2 == 0 {
        q
    } else {
        q + 1
    }
}

/// A byte count rendered for the operator: kibibytes to two decimal
/// places below a mebibyte, else mebibytes to two decimal places,
/// computed from the exact byte count and rounded to the nearest
/// hundredth, ties to even.
pub open spec fn spec_pretty_size(bytes: nat) -> Seq<char> {
    if bytes < 1048576 {
        two_decimals(round_half_even(bytes * 100, 1024)) + seq!['k', 'b']
    } else {
        two_decimals(round_half_even(bytes * 100, 1048576)) + seq!['m', 'b']
    }
}

fn format_two_decimals(h: u64) -> (r: String)
    ensures
        r@ == two_decimals(h as nat),
{
    let mut s = u64_to_string(h / 100);
    s.append(".");
    if h % 100 < 10 {
        s.append("0");
    }
    let frac = u64_to_string(h % 100);
    s.append(frac.as_str());
    proof {
        reveal_strlit(".");
        reveal_strlit("0");
        assert(s@ =~= two_decimals(h as nat));
    }
    s
}

fn rounded_hundredths(num: u128, den: u128) -> (h: u128)
    requires
        den > 0,
        num <= 0xffffffffffffffffu128 * 100,
    ensures
        h == round_half_even(num as nat, den as nat),
        h <= num / den + 1,
{
    let q = num / den;
    let r = num % den;
    proof {
        vstd::arithmetic::div_mod::lemma_fundamental_div_mod(num as int, den as int);
        assert(q <= q * den) by (nonlinear_arith)
            requires
                den >= 1,
                q >= 0,
        ;
    }
    if 2 * r < den {
        q
    } else if 2 * r > den {
        q + 1
    } else if q % 2 == 0 {
        q
    } else {
        q + 1
    }
}

/// Format a byte count for the operator's size report.
pub fn pretty_size(size_in_bytes: usize) -> (r: String)
    ensures
        r@ == spec_pretty_size(size_in_bytes as nat),
{
    let b = size_in_bytes as u128;
    proof {
        assert(b <= 0xffffffffffffffffu128);
    }
    if size_in_bytes < 1048576 {
        let h = rounded_hundredths(b * 100, 1024);
        proof {
            assert((b * 100 / 1024) * 1024 + (b * 100) % 1024 == b * 100);
            assert(h <= u64::MAX);
        }
        let mut s = format_two_decimals(h as u64);
        s.append("kb");
        proof {
            reveal_strlit("kb");
            assert(s@ =~= spec_pretty_size(size_in_bytes as nat));
        }
        s
    } else {
        let h = rounded_hundredths(b * 100, 1048576);
        proof {
            assert((b * 100 / 1048576) * 1048576 + (b * 100) % 1048576 == b * 100);
            assert(h <= u64::MAX);
        }
        let mut s = format_two_decimals(h as u64);
        s.append("mb");
        proof {
            reveal_strlit("mb");
            assert(s@ =~= spec_pretty_size(size_in_bytes as nat));
        }
        s
    }
}

} // verus!
