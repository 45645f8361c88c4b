//! Version handling: splitting a `name@version` request and comparing two
//! version strings by their numeric components, so that `1.10.0` sorts above
//! `1.2.0` where a plain text comparison would not.

use vstd::prelude::*;
use crate::strutil;

verus! {

/// A decimal digit.
pub open spec fn is_digit(c: char) -> bool {
    '0' <= c && c <= '9'
}

/// End of the digit run of `s` that starts at `i`: the first position at or
/// after `i` holding a non-digit, or the length of `s`.
pub open spec fn run_end(s: Seq<char>, i: int) -> int
    decreases s.len() - i,
{
    if i < 0 || i >= s.len() || !is_digit(s[i]) {
        i
    } else {
        run_end(s, i + 1)
    }
}

/// Value of the digits of `s` in positions `i` (inclusive) to `j` (exclusive).
pub open spec fn run_val(s: Seq<char>, i: int, j: int) -> nat
    decreases j - i,
{
    if i >= j {
        0
    } else {
        run_val(s, i, j - 1) * 10 + if is_digit(s[j - 1]) {
            (s[j - 1] as nat - '0' as nat) as nat
        } else {
            0
        }
    }
}

/// The numeric components of a version string, reading maximal digit runs
/// from position `i` on; a run whose value does not fit in 64 bits is
/// dropped, as a failed integer parse drops it.
pub open spec fn version_key_from(s: Seq<char>, i: int) -> Seq<nat>
    decreases s.len() - i,
{
    if i < 0 || i >= s.len() {
        seq![]
    } else if !is_digit(s[i]) {
        version_key_from(s, i + 1)
    } else {
        let je = run_end(s, i);
        let j = if je > s.len() {
            s.len() as int
        } else {
            je
        };
        if j <= i {
            seq![]
        } else {
            let v = run_val(s, i, j);
            let rest = version_key_from(s, j);
            if v <= u64::MAX {
                seq![v] + rest
            } else {
                rest
            }
        }
    }
}

/// The digit run starting inside `s` ends after its start and inside `s`.
proof fn lemma_run_end_bounds(s: Seq<char>, i: int)
    requires
        0 <= i <= s.len(),
    ensures
        i <= run_end(s, i) <= s.len(),
    decreases s.len() - i,
{
    if i < s.len() && is_digit(s[i]) {
        lemma_run_end_bounds(s, i + 1);
    }
}

/// The numeric components of a version string.
pub open spec fn version_key(s: Seq<char>) -> Seq<nat> {
    version_key_from(s, 0)
}

/// Strict order on version keys: componentwise, a missing component below a
/// present one.
pub open spec fn key_lt(a: Seq<nat>, b: Seq<nat>) -> bool
    decreases a.len(),
{
    if b.len() == 0 {
        false
    } else if a.len() == 0 {
        true
    } else if a[0] != b[0] {
        a[0] < b[0]
    } else {
        key_lt(a.subrange(1, a.len() as int), b.subrange(1, b.len() as int))
    }
}

proof fn lemma_run_val_grows(s: Seq<char>, i: int, k: int, j: int)
    requires
        i <= k <= j,
    ensures
        run_val(s, i, k) <= run_val(s, i, j),
    decreases j - k,
{
    if k < j {
        lemma_run_val_grows(s, i, k, j - 1);
    }
}

/// Parses the numeric components of a version string.
pub fn parse_version_key(s: &str) -> (r: Vec<u64>)
    ensures
        r@.map_values(|v: u64| v as nat) == version_key(s@),
{
    let len = s.unicode_len();
    let mut out: Vec<u64> = Vec::new();
    let mut i: usize = 0;
    while i < len
        invariant
            len == s@.len(),
            i <= len,
            out@.map_values(|v: u64| v as nat) + version_key_from(s@, i as int) == version_key(
                s@,
            ),
        decreases len - i,
    {
        let c = s.get_char(i);
        if !('0' <= c && c <= '9') {
            i += 1;
        } else {
            // walk the digit run, accumulating its value, dropping it on overflow
            let mut j: usize = i;
            let mut acc: u64 = 0;
            let mut fits: bool = true;
            while j < len && '0' <= s.get_char(j) && s.get_char(j) <= '9'
                invariant
                    len == s@.len(),
                    i <= j <= len,
                    run_end(s@, i as int) == run_end(s@, j as int),
                    fits ==> acc as nat == run_val(s@, i as int, j as int),
                    !fits ==> run_val(s@, i as int, j as int) > u64::MAX,
                    forall|k: int| i <= k < j ==> is_digit(s@[k]),
                decreases len - j,
            {
                let d = s.get_char(j);
                let dv: u64 = (d as u8 - 48) as u64;
                proof {
                    assert(run_val(s@, i as int, j + 1) == run_val(s@, i as int, j as int) * 10
                        + dv);
                }
                if fits {
                    if acc > (u64::MAX - dv) / 10 {
                        proof {
                            assert(run_val(s@, i as int, j + 1) > u64::MAX) by (nonlinear_arith)
                                requires
                                    run_val(s@, i as int, j + 1) == run_val(s@, i as int, j as int)
                                        * 10 + dv,
                                    run_val(s@, i as int, j as int) == acc as nat,
                                    acc > (u64::MAX - dv) / 10,
                                    dv < 10,
                            ;
                        }
                        fits = false;
                    } else {
                        proof {
                            assert(acc * 10 + dv <= u64::MAX) by (nonlinear_arith)
                                requires
                                    acc <= (u64::MAX - dv) / 10,
                                    dv < 10,
                            ;
                        }
                        acc = acc * 10 + dv;
                    }
                } else {
                    proof {
                        lemma_run_val_grows(s@, i as int, j as int, j + 1);
                    }
                }
                j += 1;
            }
            proof {
                assert(run_end(s@, j as int) == j as int);
                assert(run_end(s@, i as int) == j as int);
            }
            if fits {
                out.push(acc);
                proof {
                    assert(out@.map_values(|v: u64| v as nat) =~= out@.subrange(
                        0,
                        out@.len() - 1,
                    ).map_values(|v: u64| v as nat) + seq![acc as nat]);
                    assert(out@.subrange(0, out@.len() - 1) =~= out@.drop_last());
                }
            }
            proof {
                assert(out@.map_values(|v: u64| v as nat) + version_key_from(s@, j as int)
                    =~= version_key(s@));
            }
            i = j;
        }
    }
    proof {
        assert(out@.map_values(|v: u64| v as nat) =~= out@.map_values(|v: u64| v as nat)
            + version_key_from(s@, i as int));
    }
    out
}

/// Compares version keys from component `i` on.
fn key_cmp_from(a: &Vec<u64>, b: &Vec<u64>, i: usize) -> (r: core::cmp::Ordering)
    requires
        i <= a@.len(),
        i <= b@.len(),
    ensures
        (r == core::cmp::Ordering::Less) == key_lt(
            a@.map_values(|v: u64| v as nat).subrange(i as int, a@.len() as int),
            b@.map_values(|v: u64| v as nat).subrange(i as int, b@.len() as int),
        ),
        (r == core::cmp::Ordering::Greater) == key_lt(
            b@.map_values(|v: u64| v as nat).subrange(i as int, b@.len() as int),
            a@.map_values(|v: u64| v as nat).subrange(i as int, a@.len() as int),
        ),
        (r == core::cmp::Ordering::Equal) == (a@.map_values(|v: u64| v as nat).subrange(
            i as int,
            a@.len() as int,
        ) == b@.map_values(|v: u64| v as nat).subrange(i as int, b@.len() as int)),
    decreases a@.len() - i,
{
    let ghost sa = a@.map_values(|v: u64| v as nat).subrange(i as int, a@.len() as int);
    let ghost sb = b@.map_values(|v: u64| v as nat).subrange(i as int, b@.len() as int);
    if i == a.len() && i == b.len() {
        proof {
            assert(sa =~= sb);
        }
        core::cmp::Ordering::Equal
    } else if i == a.len() {
        proof {
            assert(sa.len() == 0 && sb.len() > 0);
        }
        core::cmp::Ordering::Less
    } else if i == b.len() {
        proof {
            assert(sb.len() == 0 && sa.len() > 0);
            assert(sa != sb) by {
                assert(sa.len() != sb.len());
            }
        }
        core::cmp::Ordering::Greater
    } else if a[i] < b[i] {
        proof {
            assert(sa[0] == a@[i as int] as nat && sb[0] == b@[i as int] as nat);
            assert(sa != sb) by {
                assert(sa[0] != sb[0]);
            }
        }
        core::cmp::Ordering::Less
    } else if a[i] > b[i] {
        proof {
            assert(sa[0] == a@[i as int] as nat && sb[0] == b@[i as int] as nat);
            assert(sa != sb) by {
                assert(sa[0] != sb[0]);
            }
        }
        core::cmp::Ordering::Greater
    } else {
        let r = key_cmp_from(a, b, i + 1);
        proof {
            assert(sa[0] == a@[i as int] as nat && sb[0] == b@[i as int] as nat);
            assert(sa.subrange(1, sa.len() as int) =~= a@.map_values(
                |v: u64| v as nat,
            ).subrange(i + 1, a@.len() as int));
            assert(sb.subrange(1, sb.len() as int) =~= b@.map_values(
                |v: u64| v as nat,
            ).subrange(i + 1, b@.len() as int));
            if r == core::cmp::Ordering::Equal {
                assert forall|k: int| 0 <= k < sa.len() implies sa[k] == sb[k] by {
                    if k > 0 {
                        assert(sa[k] == sa.subrange(1, sa.len() as int)[k - 1]);
                        assert(sb[k] == sb.subrange(1, sb.len() as int)[k - 1]);
                    }
                }
                assert(sa =~= sb);
            }
            if sa == sb {
                assert(sa.subrange(1, sa.len() as int) =~= sb.subrange(1, sb.len() as int));
            }
        }
        r
    }
}

/// Compares two version strings by their numeric components.
pub fn version_cmp(a: &str, b: &str) -> (r: core::cmp::Ordering)
    ensures
        (r == core::cmp::Ordering::Less) == key_lt(version_key(a@), version_key(b@)),
        (r == core::cmp::Ordering::Greater) == key_lt(version_key(b@), version_key(a@)),
        (r == core::cmp::Ordering::Equal) == (version_key(a@) == version_key(b@)),
{
    let ka = parse_version_key(a);
    let kb = parse_version_key(b);
    let r = key_cmp_from(&ka, &kb, 0);
    proof {
        assert(ka@.map_values(|v: u64| v as nat).subrange(0, ka@.len() as int) =~= version_key(
            a@,
        ));
        assert(kb@.map_values(|v: u64| v as nat).subrange(0, kb@.len() as int) =~= version_key(
            b@,
        ));
    }
    r
}

/// `a` names a strictly newer version than `b`.
pub fn version_newer(a: &str, b: &str) -> (r: bool)
    ensures
        r == key_lt(version_key(b@), version_key(a@)),
{
    match version_cmp(a, b) {
        core::cmp::Ordering::Greater => true,
        _ => false,
    }
}

/// Splits a `name@version` request into the name and the optional version.
pub fn parse_crate_spec<'a>(text: &'a str) -> (r: (&'a str, Option<&'a str>))
    ensures
        match r.1 {
            Some(v) => {
                &&& strutil::occurs_at(text@, seq!['@'], r.0@.len() as int)
                &&& r.0@ == text@.subrange(0, r.0@.len() as int)
                &&& v@ == text@.subrange(r.0@.len() as int + 1, text@.len() as int)
                &&& forall|j: int| 0 <= j < r.0@.len() ==> text@[j] != '@'
            },
            None => {
                &&& r.0@ == text@
                &&& forall|j: int| 0 <= j < text@.len() ==> text@[j] != '@'
            },
        },
{
    let len = text.unicode_len();
    let mut i: usize = 0;
    while i < len
        invariant
            len == text@.len(),
            i <= len,
            forall|j: int| 0 <= j < i ==> text@[j] != '@',
        decreases len - i,
    {
        if text.get_char(i) == '@' {
            let name = text.substring_char(0, i);
            let version = text.substring_char(i + 1, len);
            proof {
                assert(text@.subrange(i as int, i + 1) =~= seq!['@']);
            }
            return (name, Some(version));
        }
        i += 1;
    }
    (text, None)
}

} // verus!
