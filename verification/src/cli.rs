//! Pure helpers for the workspace's lint wrapper tool: argument splitting
//! and exit-code normalisation.

use vstd::prelude::*;

verus! {

broadcast use vstd::string::group_string_axioms;

/// The position of the first `"--"` separator in an argument list, or the
/// list's length when there is none.
pub open spec fn first_sep(s: Seq<String>) -> int
    decreases s.len(),
{
    if s.len() == 0 {
        0
    } else if s[0]@ == "--"@ {
        0
    } else {
        1 + first_sep(s.drop_first())
    }
}

proof fn lemma_first_sep(s: Seq<String>)
    ensures
        0 <= first_sep(s) <= s.len(),
        forall|i: int| 0 <= i < first_sep(s) ==> (#[trigger] s[i])@ != "--"@,
        first_sep(s) < s.len() ==> s[first_sep(s)]@ == "--"@,
    decreases s.len(),
{
    if s.len() > 0 && !(s[0]@ == "--"@) {
        lemma_first_sep(s.drop_first());
        assert forall|i: int| 0 <= i < first_sep(s) implies (#[trigger] s[i])@ != "--"@ by {
            if i > 0 {
                assert(s.drop_first()[i - 1] == s[i]);
            }
        }
        if first_sep(s) < s.len() {
            assert(s.drop_first()[first_sep(s) - 1] == s[first_sep(s)]);
        }
    }
}

/// Splits an argument list at the first `"--"`: everything before it is
/// returned first, everything after it second, and the separator itself is
/// dropped.  Later `"--"` entries are kept verbatim.
#[verifier::loop_isolation(false)]
pub fn split_args_on_double_dash(args: Vec<String>) -> (r: (Vec<String>, Vec<String>))
    ensures
        r.0@ == args@.take(first_sep(args@)),
        r.1@ == if first_sep(args@) < args@.len() {
            args@.skip(first_sep(args@) + 1)
        } else {
            Seq::<String>::empty()
        },
{
    let ghost k = first_sep(args@);
    proof {
        lemma_first_sep(args@);
    }
    let dd: String = "--".to_string();
    let mut cargo_args: Vec<String> = Vec::new();
    let mut clippy_args: Vec<String> = Vec::new();
    let mut seen_double_dash = false;
    let mut i: usize = 0;
    while i < args.len()
        invariant
            i <= args@.len(),
            dd@ == "--"@,
            seen_double_dash <==> k < i as int,
            cargo_args@ == args@.take(
                if i as int <= k {
                    i as int
                } else {
                    k
                },
            ),
            clippy_args@ == if k < i as int {
                args@.subrange(k + 1, i as int)
            } else {
                Seq::<String>::empty()
            },
        decreases args@.len() - i,
    {
        let arg = &args[i];
        if !seen_double_dash && arg.eq(&dd) {
            seen_double_dash = true;
            proof {
                // The first separator cannot sit before position `k`.
                assert(args@[i as int]@ == "--"@);
                assert(i as int == k);
                assert(clippy_args@ =~= args@.subrange(k + 1, i + 1));
            }
        } else if seen_double_dash {
            clippy_args.push(arg.clone());
            proof {
                assert(clippy_args@ =~= args@.subrange(k + 1, i + 1));
            }
        } else {
            cargo_args.push(arg.clone());
            proof {
                assert(args@[i as int]@ != "--"@);
                assert((i as int) < k);
                assert(cargo_args@ =~= args@.take(i + 1));
            }
        }
        i = i + 1;
    }
    proof {
        if !(k < args@.len()) {
            assert(cargo_args@ =~= args@.take(k));
        }
    }
    (cargo_args, clippy_args)
}

/// Clamps a process exit code into the byte a shell reports: values in
/// `0..=255` pass through, negatives become 0, larger values become 255.
pub fn exit_code_from_i32(code: i32) -> (r: u8)
    ensures
        r as int == if 0 <= code <= 255 {
            code as int
        } else if code < 0 {
            0int
        } else {
            255int
        },
{
    if code >= 0 && code <= 255 {
        code as u8
    } else if code < 0 {
        0
    } else {
        255
    }
}

} // verus!
