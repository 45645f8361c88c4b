//! Verified building blocks for the string work the engine does everywhere:
//! equality, prefix/suffix/substring tests, ASCII lowercasing, and locating
//! the simple name at the end of a `::`-separated symbol path.

use vstd::prelude::*;

verus! {

/// The `::` separator of Rust symbol paths, as a character sequence.
pub open spec fn path_sep() -> Seq<char> {
    "::"@
}

/// `sub` occurs in `s` starting at position `i`.
pub open spec fn occurs_at(s: Seq<char>, sub: Seq<char>, i: int) -> bool {
    0 <= i && i + sub.len() <= s.len() && s.subrange(i, i + sub.len() as int) == sub
}

/// `sub` occurs somewhere in `s`.
pub open spec fn contains_seq(s: Seq<char>, sub: Seq<char>) -> bool {
    exists|i: int| occurs_at(s, sub, i)
}

/// The ASCII-lowercased form of one character.
pub open spec fn lower_char_spec(c: char) -> char {
    if 'A' <= c && c <= 'Z' {
        (((c as u8) + 32) as char)
    } else {
        c
    }
}

/// The ASCII-lowercased form of a character sequence.
pub open spec fn to_lower(s: Seq<char>) -> Seq<char> {
    s.map_values(|c: char| lower_char_spec(c))
}

/// Case folding is idempotent: a folded sequence folds to itself.
pub proof fn lemma_to_lower_idempotent(s: Seq<char>)
    ensures
        to_lower(to_lower(s)) == to_lower(s),
{
    assert(to_lower(to_lower(s)) =~= to_lower(s)) by {
        assert forall|i: int| 0 <= i < s.len() implies to_lower(to_lower(s))[i] == to_lower(
            s,
        )[i] by {
            assert(lower_char_spec(lower_char_spec(s[i])) == lower_char_spec(s[i]));
        }
    }
}

/// Relies on `String::push`: appends one character at the end.
pub assume_specification[ String::push ](s: &mut String, c: char)
    ensures
        final(s)@ == old(s)@.push(c),
;

/// Copies an optional string.
pub fn clone_opt_string(o: &Option<String>) -> (r: Option<String>)
    ensures
        r == *o,
{
    match o {
        Some(s) => Some(s.clone()),
        None => None,
    }
}

/// Character-for-character equality of two string slices.
pub fn str_eq(a: &str, b: &str) -> (r: bool)
    ensures
        r == (a@ == b@),
{
    let alen = a.unicode_len();
    let blen = b.unicode_len();
    if alen != blen {
        assert(a@ != b@) by {
            assert(a@.len() != b@.len());
        }
        return false;
    }
    let mut i: usize = 0;
    while i < alen
        invariant
            alen == a@.len(),
            blen == b@.len(),
            alen == blen,
            i <= alen,
            forall|j: int| 0 <= j < i ==> a@[j] == b@[j],
        decreases alen - i,
    {
        if a.get_char(i) != b.get_char(i) {
            return false;
        }
        i += 1;
    }
    proof {
        assert(a@ =~= b@);
    }
    true
}

/// `p` is a prefix of `s`.
pub fn starts_with(s: &str, p: &str) -> (r: bool)
    ensures
        r == p@.is_prefix_of(s@),
{
    let slen = s.unicode_len();
    let plen = p.unicode_len();
    if plen > slen {
        return false;
    }
    let mut i: usize = 0;
    while i < plen
        invariant
            slen == s@.len(),
            plen == p@.len(),
            plen <= slen,
            i <= plen,
            forall|j: int| 0 <= j < i ==> s@[j] == p@[j],
        decreases plen - i,
    {
        if s.get_char(i) != p.get_char(i) {
            assert(!p@.is_prefix_of(s@)) by {
                assert(s@.subrange(0, p@.len() as int)[i as int] == s@[i as int]);
            }
            return false;
        }
        i += 1;
    }
    proof {
        assert(s@.subrange(0, p@.len() as int) =~= p@);
    }
    true
}

/// `p` is a suffix of `s`.
pub fn ends_with(s: &str, p: &str) -> (r: bool)
    ensures
        r == p@.is_suffix_of(s@),
{
    let slen = s.unicode_len();
    let plen = p.unicode_len();
    if plen > slen {
        return false;
    }
    let start = slen - plen;
    let mut i: usize = 0;
    while i < plen
        invariant
            slen == s@.len(),
            plen == p@.len(),
            plen <= slen,
            start == slen - plen,
            i <= plen,
            forall|j: int| 0 <= j < i ==> s@[start + j] == p@[j],
        decreases plen - i,
    {
        if s.get_char(start + i) != p.get_char(i) {
            assert(!p@.is_suffix_of(s@)) by {
                assert(s@.subrange(s@.len() - p@.len(), s@.len() as int)[i as int]
                    == s@[start + i]);
            }
            return false;
        }
        i += 1;
    }
    proof {
        assert(s@.subrange(s@.len() - p@.len(), s@.len() as int) =~= p@);
    }
    true
}

/// `sub` occurs in `s` at position `i`.
fn occurs_at_exec(s: &str, sub: &str, i: usize) -> (r: bool)
    requires
        i + sub@.len() <= s@.len(),
    ensures
        r == occurs_at(s@, sub@, i as int),
{
    let slen = s.unicode_len();
    let sublen = sub.unicode_len();
    let mut j: usize = 0;
    while j < sublen
        invariant
            slen == s@.len(),
            sublen == sub@.len(),
            i + sublen <= s@.len(),
            j <= sublen,
            forall|k: int| 0 <= k < j ==> s@[i + k] == sub@[k],
        decreases sublen - j,
    {
        if s.get_char(i + j) != sub.get_char(j) {
            assert(!occurs_at(s@, sub@, i as int)) by {
                assert(s@.subrange(i as int, i + sub@.len() as int)[j as int] == s@[i + j]);
            }
            return false;
        }
        j += 1;
    }
    proof {
        assert(s@.subrange(i as int, i + sub@.len() as int) =~= sub@);
    }
    true
}

/// Position of the first occurrence of `sub` in `s`, if any.
pub fn find_sub(s: &str, sub: &str) -> (r: Option<usize>)
    ensures
        match r {
            Some(i) => occurs_at(s@, sub@, i as int) && forall|j: int|
                0 <= j < i ==> !occurs_at(s@, sub@, j),
            None => !contains_seq(s@, sub@),
        },
{
    let slen = s.unicode_len();
    let sublen = sub.unicode_len();
    if sublen > slen {
        return None;
    }
    if sublen == 0 {
        proof {
            assert(s@.subrange(0, 0) =~= sub@);
        }
        return Some(0);
    }
    let mut i: usize = 0;
    while i <= slen - sublen
        invariant
            slen == s@.len(),
            sublen == sub@.len(),
            0 < sublen <= slen,
            i <= slen - sublen + 1,
            forall|j: int| 0 <= j < i ==> !occurs_at(s@, sub@, j),
        decreases slen - i,
    {
        if occurs_at_exec(s, sub, i) {
            return Some(i);
        }
        i += 1;
    }
    None
}

/// `sub` occurs somewhere in `s`.
pub fn contains(s: &str, sub: &str) -> (r: bool)
    ensures
        r == contains_seq(s@, sub@),
{
    match find_sub(s, sub) {
        Some(_) => true,
        None => false,
    }
}

/// ASCII-lowercases one character.
pub fn lower_char(c: char) -> (r: char)
    ensures
        r == lower_char_spec(c),
{
    if 'A' <= c && c <= 'Z' {
        ((c as u8) + 32) as char
    } else {
        c
    }
}

/// ASCII-lowercases a string slice.
pub fn lower(s: &str) -> (r: String)
    ensures
        r@ == to_lower(s@),
{
    let len = s.unicode_len();
    let mut out = String::new();
    let mut i: usize = 0;
    while i < len
        invariant
            len == s@.len(),
            i <= len,
            out@ == to_lower(s@).subrange(0, i as int),
        decreases len - i,
    {
        out.push(lower_char(s.get_char(i)));
        proof {
            assert(out@ =~= to_lower(s@).subrange(0, i + 1));
        }
        i += 1;
    }
    proof {
        assert(to_lower(s@).subrange(0, s@.len() as int) =~= to_lower(s@));
    }
    out
}

/// The copy of `s` from `from` (inclusive) to `to` (exclusive), by characters.
pub fn substring_copy(s: &str, from: usize, to: usize) -> (r: String)
    requires
        from <= to <= s@.len(),
    ensures
        r@ == s@.subrange(from as int, to as int),
{
    let piece = s.substring_char(from, to);
    piece.to_owned()
}

/// Position of the first occurrence of `sub` in `s` at or after `i`, or -1.
pub open spec fn first_occ_from(s: Seq<char>, sub: Seq<char>, i: int) -> int
    decreases s.len() - i,
{
    if i < 0 || i + sub.len() > s.len() {
        -1
    } else if sub.len() == 0 {
        i
    } else if occurs_at(s, sub, i) {
        i
    } else {
        first_occ_from(s, sub, i + 1)
    }
}

/// Position of the first occurrence of `sub` in `s`, or -1.
pub open spec fn first_occ(s: Seq<char>, sub: Seq<char>) -> int {
    first_occ_from(s, sub, 0)
}

/// A found occurrence with nothing before it is the first occurrence.
pub proof fn lemma_first_occ_some(s: Seq<char>, sub: Seq<char>, k: int, i: int)
    requires
        0 <= k <= i,
        sub.len() > 0,
        occurs_at(s, sub, i),
        forall|j: int| k <= j < i ==> !occurs_at(s, sub, j),
    ensures
        first_occ_from(s, sub, k) == i,
    decreases i - k,
{
    if k < i {
        lemma_first_occ_some(s, sub, k + 1, i);
    }
}

/// Where nothing occurs, the first occurrence is -1.
pub proof fn lemma_first_occ_none(s: Seq<char>, sub: Seq<char>, k: int)
    requires
        0 <= k,
        sub.len() > 0,
        forall|j: int| k <= j ==> !occurs_at(s, sub, j),
    ensures
        first_occ_from(s, sub, k) == -1,
    decreases s.len() - k,
{
    if k + sub.len() <= s.len() {
        lemma_first_occ_none(s, sub, k + 1);
    }
}

/// An ASCII whitespace character.
pub open spec fn is_space(c: char) -> bool {
    c == ' ' || c == '\t' || c == '\r' || c == '\n'
}

/// Number of whitespace characters at the front of `s`.
pub open spec fn trim_start_idx(s: Seq<char>) -> int
    decreases s.len(),
{
    if s.len() == 0 {
        0
    } else if is_space(s[0]) {
        1 + trim_start_idx(s.subrange(1, s.len() as int))
    } else {
        0
    }
}

/// Position after the last non-whitespace character of `s`.
pub open spec fn trim_end_idx(s: Seq<char>) -> int
    decreases s.len(),
{
    if s.len() == 0 {
        0
    } else if is_space(s.last()) {
        trim_end_idx(s.drop_last())
    } else {
        s.len() as int
    }
}

/// `s` without leading and trailing ASCII whitespace.
pub open spec fn trim_spec(s: Seq<char>) -> Seq<char> {
    if trim_end_idx(s) <= trim_start_idx(s) {
        seq![]
    } else {
        s.subrange(trim_start_idx(s), trim_end_idx(s))
    }
}

proof fn lemma_trim_start_char(s: Seq<char>, k: int)
    requires
        0 <= k <= s.len(),
        forall|j: int| 0 <= j < k ==> is_space(s[j]),
        k < s.len() ==> !is_space(s[k]),
    ensures
        trim_start_idx(s) == k,
    decreases k,
{
    if s.len() == 0 {
    } else if k == 0 {
    } else {
        let t = s.subrange(1, s.len() as int);
        assert(forall|j: int| 0 <= j < k - 1 ==> is_space(#[trigger] t[j]));
        lemma_trim_start_char(t, k - 1);
    }
}

proof fn lemma_trim_end_char(s: Seq<char>, k: int)
    requires
        0 <= k <= s.len(),
        forall|j: int| k <= j < s.len() ==> is_space(s[j]),
        k > 0 ==> !is_space(s[k - 1]),
    ensures
        trim_end_idx(s) == k,
    decreases s.len() - k,
{
    if k < s.len() {
        let t = s.drop_last();
        assert(forall|j: int| k <= j < t.len() ==> is_space(#[trigger] t[j]));
        lemma_trim_end_char(t, k);
    }
}

/// Decides whether `c` is ASCII whitespace.
pub fn is_space_char(c: char) -> (r: bool)
    ensures
        r == is_space(c),
{
    c == ' ' || c == '\t' || c == '\r' || c == '\n'
}

/// Copies `s` without leading and trailing ASCII whitespace.
pub fn trim_copy(s: &str) -> (r: String)
    ensures
        r@ == trim_spec(s@),
{
    let len = s.unicode_len();
    let mut a: usize = 0;
    while a < len && is_space_char(s.get_char(a))
        invariant
            len == s@.len(),
            a <= len,
            forall|j: int| 0 <= j < a ==> is_space(s@[j]),
        decreases len - a,
    {
        a += 1;
    }
    proof {
        lemma_trim_start_char(s@, a as int);
    }
    let mut b: usize = len;
    while b > a && is_space_char(s.get_char(b - 1))
        invariant
            len == s@.len(),
            a <= b <= len,
            forall|j: int| b <= j < len ==> is_space(s@[j]),
        decreases b,
    {
        b -= 1;
    }
    if b <= a {
        proof {
            assert(a == len);
            assert(forall|j: int| 0 <= j < len ==> is_space(s@[j]));
            lemma_trim_end_char(s@, 0);
        }
        String::new()
    } else {
        proof {
            lemma_trim_end_char(s@, b as int);
        }
        substring_copy(s, a, b)
    }
}

/// Number of copies of `c` at the front of `s`.
pub open spec fn trim_start_idx_ch(s: Seq<char>, c: char) -> int
    decreases s.len(),
{
    if s.len() == 0 {
        0
    } else if s[0] == c {
        1 + trim_start_idx_ch(s.subrange(1, s.len() as int), c)
    } else {
        0
    }
}

/// Position after the last character of `s` that is not `c`.
pub open spec fn trim_end_idx_ch(s: Seq<char>, c: char) -> int
    decreases s.len(),
{
    if s.len() == 0 {
        0
    } else if s.last() == c {
        trim_end_idx_ch(s.drop_last(), c)
    } else {
        s.len() as int
    }
}

/// `s` without leading and trailing copies of `c`.
pub open spec fn trim_matches_spec(s: Seq<char>, c: char) -> Seq<char> {
    if trim_end_idx_ch(s, c) <= trim_start_idx_ch(s, c) {
        seq![]
    } else {
        s.subrange(trim_start_idx_ch(s, c), trim_end_idx_ch(s, c))
    }
}

proof fn lemma_trim_start_ch(s: Seq<char>, c: char, k: int)
    requires
        0 <= k <= s.len(),
        forall|j: int| 0 <= j < k ==> s[j] == c,
        k < s.len() ==> s[k] != c,
    ensures
        trim_start_idx_ch(s, c) == k,
    decreases k,
{
    if s.len() == 0 {
    } else if k == 0 {
    } else {
        let t = s.subrange(1, s.len() as int);
        assert(forall|j: int| 0 <= j < k - 1 ==> #[trigger] t[j] == c);
        lemma_trim_start_ch(t, c, k - 1);
    }
}

proof fn lemma_trim_end_ch(s: Seq<char>, c: char, k: int)
    requires
        0 <= k <= s.len(),
        forall|j: int| k <= j < s.len() ==> s[j] == c,
        k > 0 ==> s[k - 1] != c,
    ensures
        trim_end_idx_ch(s, c) == k,
    decreases s.len() - k,
{
    if k < s.len() {
        let t = s.drop_last();
        assert(forall|j: int| k <= j < t.len() ==> #[trigger] t[j] == c);
        lemma_trim_end_ch(t, c, k);
    }
}

/// Copies `s` without leading and trailing copies of the character `c`.
pub fn trim_matches_copy(s: &str, c: char) -> (r: String)
    ensures
        r@ == trim_matches_spec(s@, c),
{
    let len = s.unicode_len();
    let mut a: usize = 0;
    while a < len && s.get_char(a) == c
        invariant
            len == s@.len(),
            a <= len,
            forall|j: int| 0 <= j < a ==> s@[j] == c,
        decreases len - a,
    {
        a += 1;
    }
    proof {
        lemma_trim_start_ch(s@, c, a as int);
    }
    let mut b: usize = len;
    while b > a && s.get_char(b - 1) == c
        invariant
            len == s@.len(),
            a <= b <= len,
            forall|j: int| b <= j < len ==> s@[j] == c,
        decreases b,
    {
        b -= 1;
    }
    if b <= a {
        proof {
            assert(a == len);
            assert(forall|j: int| 0 <= j < len ==> s@[j] == c);
            lemma_trim_end_ch(s@, c, 0);
        }
        String::new()
    } else {
        proof {
            lemma_trim_end_ch(s@, c, b as int);
        }
        substring_copy(s, a, b)
    }
}

/// Position of the first line break in `s`, or the length of `s`.
pub open spec fn find_nl(s: Seq<char>) -> int
    decreases s.len(),
{
    if s.len() == 0 {
        0
    } else if s[0] == '\n' {
        0
    } else {
        1 + find_nl(s.subrange(1, s.len() as int))
    }
}

proof fn lemma_find_nl_char(s: Seq<char>, k: int)
    requires
        0 <= k <= s.len(),
        forall|j: int| 0 <= j < k ==> s[j] != '\n',
        k < s.len() ==> s[k] == '\n',
    ensures
        find_nl(s) == k,
    decreases k,
{
    if s.len() == 0 {
    } else if k == 0 {
    } else {
        let t = s.subrange(1, s.len() as int);
        assert(forall|j: int| 0 <= j < k - 1 ==> #[trigger] t[j] != '\n');
        lemma_find_nl_char(t, k - 1);
    }
}

/// A line without one trailing carriage return.
pub open spec fn strip_cr(line: Seq<char>) -> Seq<char> {
    if line.len() > 0 && line.last() == '\r' {
        line.drop_last()
    } else {
        line
    }
}

/// The lines of `s`: split at `\n`, each without a trailing `\r`, the final
/// line-break producing no empty last line.
pub open spec fn split_lines(s: Seq<char>) -> Seq<Seq<char>>
    decreases s.len(),
{
    if s.len() == 0 {
        seq![]
    } else {
        let j = find_nl(s);
        let i = if j < 0 {
            0
        } else if j > s.len() {
            s.len() as int
        } else {
            j
        };
        if i >= s.len() {
            seq![strip_cr(s)]
        } else {
            seq![strip_cr(s.subrange(0, i))] + split_lines(s.subrange(i + 1, s.len() as int))
        }
    }
}

/// Splits `s` into its lines.
pub fn lines_of(s: &str) -> (r: Vec<String>)
    ensures
        r@.map_values(|l: String| l@) == split_lines(s@),
{
    let len = s.unicode_len();
    let mut out: Vec<String> = Vec::new();
    let mut pos: usize = 0;
    proof {
        assert(s@.subrange(0, len as int) =~= s@);
        assert(out@.map_values(|l: String| l@) + split_lines(s@) =~= split_lines(s@));
    }
    while pos < len
        invariant
            len == s@.len(),
            pos <= len,
            out@.map_values(|l: String| l@) + split_lines(s@.subrange(pos as int, len as int))
                == split_lines(s@),
        decreases len - pos,
    {
        let ghost rest = s@.subrange(pos as int, len as int);
        let mut j: usize = pos;
        while j < len && s.get_char(j) != '\n'
            invariant
                len == s@.len(),
                pos <= j <= len,
                forall|k: int| pos <= k < j ==> s@[k] != '\n',
            decreases len - j,
        {
            j += 1;
        }
        proof {
            assert(forall|k: int| 0 <= k < j - pos ==> #[trigger] rest[k] != '\n');
            lemma_find_nl_char(rest, j - pos as int);
        }
        let line_end = if j > pos && s.get_char(j - 1) == '\r' {
            j - 1
        } else {
            j
        };
        let line = substring_copy(s, pos, line_end);
        proof {
            if j > pos {
                assert(strip_cr(rest.subrange(0, j - pos as int)) =~= s@.subrange(
                    pos as int,
                    line_end as int,
                )) by {
                    assert(rest.subrange(0, j - pos as int) =~= s@.subrange(pos as int, j as int));
                    assert(rest.subrange(0, j - pos as int).drop_last() =~= s@.subrange(
                        pos as int,
                        j - 1,
                    ));
                }
                assert(strip_cr(rest) =~= strip_cr(rest.subrange(0, rest.len() as int)));
            }
        }
        out.push(line);
        if j < len {
            proof {
                assert(rest.subrange(0, j - pos as int) =~= s@.subrange(pos as int, j as int));
                assert(rest.subrange(j - pos as int + 1, rest.len() as int) =~= s@.subrange(
                    j + 1,
                    len as int,
                ));
                assert(out@.map_values(|l: String| l@) =~= out@.drop_last().map_values(
                    |l: String| l@,
                ).push(s@.subrange(pos as int, line_end as int)));
            }
            pos = j + 1;
        } else {
            proof {
                assert(rest.subrange(0, rest.len() as int) =~= rest);
                assert(out@.map_values(|l: String| l@) =~= out@.drop_last().map_values(
                    |l: String| l@,
                ).push(s@.subrange(pos as int, line_end as int)));
                assert(s@.subrange(len as int, len as int) =~= Seq::<char>::empty());
            }
            pos = len;
        }
    }
    proof {
        assert(s@.subrange(pos as int, len as int) =~= Seq::<char>::empty());
        assert(out@.map_values(|l: String| l@) =~= out@.map_values(|l: String| l@)
            + split_lines(Seq::<char>::empty()));
    }
    out
}

/// The character of one decimal digit.
pub open spec fn digit_char(d: int) -> char {
    if d == 0 {
        '0'
    } else if d == 1 {
        '1'
    } else if d == 2 {
        '2'
    } else if d == 3 {
        '3'
    } else if d == 4 {
        '4'
    } else if d == 5 {
        '5'
    } else if d == 6 {
        '6'
    } else if d == 7 {
        '7'
    } else if d == 8 {
        '8'
    } else {
        '9'
    }
}

/// The decimal writing of a natural number.
pub open spec fn dec_spec(n: nat) -> Seq<char>
    decreases n,
{
    if n < 10 {
        seq![digit_char(n as int)]
    } else {
        dec_spec(n / 10).push(digit_char((n % 10) as int))
    }
}

/// Writes one decimal digit.
fn digit_char_exec(d: u64) -> (r: char)
    requires
        d < 10,
    ensures
        r == digit_char(d as int),
{
    if d == 0 {
        '0'
    } else if d == 1 {
        '1'
    } else if d == 2 {
        '2'
    } else if d == 3 {
        '3'
    } else if d == 4 {
        '4'
    } else if d == 5 {
        '5'
    } else if d == 6 {
        '6'
    } else if d == 7 {
        '7'
    } else if d == 8 {
        '8'
    } else {
        '9'
    }
}

/// Writes a number in decimal.
pub fn u64_to_string(n: u64) -> (r: String)
    ensures
        r@ == dec_spec(n as nat),
    decreases n,
{
    if n < 10 {
        let mut s = String::new();
        s.push(digit_char_exec(n));
        proof {
            assert(s@ =~= dec_spec(n as nat));
        }
        s
    } else {
        let mut s = u64_to_string(n / 10);
        s.push(digit_char_exec(n % 10));
        s
    }
}

/// Strict lexicographic order on character sequences, by code point, with a
/// proper prefix ordered before its extensions.
pub open spec fn lex_lt(a: Seq<char>, b: Seq<char>) -> bool
    decreases a.len(),
{
    if b.len() == 0 {
        false
    } else if a.len() == 0 {
        true
    } else if a[0] != b[0] {
        a[0] < b[0]
    } else {
        lex_lt(a.subrange(1, a.len() as int), b.subrange(1, b.len() as int))
    }
}

/// Two distinct sequences are ordered one way or the other.
pub proof fn lemma_lex_connected(a: Seq<char>, b: Seq<char>)
    ensures
        a != b ==> lex_lt(a, b) || lex_lt(b, a),
    decreases a.len(),
{
    if a.len() == 0 && b.len() == 0 {
        assert(a =~= b);
    }
    if a.len() != 0 && b.len() != 0 && a[0] == b[0] {
        let ta = a.subrange(1, a.len() as int);
        let tb = b.subrange(1, b.len() as int);
        lemma_lex_connected(ta, tb);
        if ta == tb {
            assert(ta.len() == tb.len());
            assert(a.len() == b.len());
            assert forall|i: int| 0 <= i < a.len() implies a[i] == b[i] by {
                if i > 0 {
                    assert(a[i] == ta[i - 1]);
                    assert(b[i] == tb[i - 1]);
                }
            }
            assert(a =~= b);
        }
    }
}

/// The order never holds both ways.
pub proof fn lemma_lex_asym(a: Seq<char>, b: Seq<char>)
    ensures
        !(lex_lt(a, b) && lex_lt(b, a)),
    decreases a.len(),
{
    if a.len() != 0 && b.len() != 0 && a[0] == b[0] {
        lemma_lex_asym(a.subrange(1, a.len() as int), b.subrange(1, b.len() as int));
    }
}

/// The order is transitive.
pub proof fn lemma_lex_trans(a: Seq<char>, b: Seq<char>, c: Seq<char>)
    requires
        lex_lt(a, b),
        lex_lt(b, c),
    ensures
        lex_lt(a, c),
    decreases a.len(),
{
    if a.len() != 0 && b.len() != 0 && c.len() != 0 && a[0] == b[0] && b[0] == c[0] {
        lemma_lex_trans(
            a.subrange(1, a.len() as int),
            b.subrange(1, b.len() as int),
            c.subrange(1, c.len() as int),
        );
    }
}

/// Decides the lexicographic order of two string slices.
pub fn str_lt(a: &str, b: &str) -> (r: bool)
    ensures
        r == lex_lt(a@, b@),
{
    let alen = a.unicode_len();
    let blen = b.unicode_len();
    proof {
        assert(a@.subrange(0, alen as int) =~= a@);
        assert(b@.subrange(0, blen as int) =~= b@);
    }
    let mut i: usize = 0;
    while i < alen && i < blen
        invariant
            alen == a@.len(),
            blen == b@.len(),
            i <= alen,
            i <= blen,
            lex_lt(a@, b@) == lex_lt(
                a@.subrange(i as int, alen as int),
                b@.subrange(i as int, blen as int),
            ),
        decreases alen - i,
    {
        let ca = a.get_char(i);
        let cb = b.get_char(i);
        proof {
            let sa = a@.subrange(i as int, alen as int);
            let sb = b@.subrange(i as int, blen as int);
            assert(sa[0] == ca && sb[0] == cb);
            if ca == cb {
                assert(sa.subrange(1, sa.len() as int) =~= a@.subrange(i + 1, alen as int));
                assert(sb.subrange(1, sb.len() as int) =~= b@.subrange(i + 1, blen as int));
            }
        }
        if ca != cb {
            return ca < cb;
        }
        i += 1;
    }
    proof {
        let sa = a@.subrange(i as int, alen as int);
        let sb = b@.subrange(i as int, blen as int);
        assert(sa.len() == 0 || sb.len() == 0);
    }
    i < blen
}

/// `s` without a leading `p`; `s` itself when `p` is not a prefix.
pub open spec fn strip_prefix_spec(s: Seq<char>, p: Seq<char>) -> Seq<char> {
    if p.is_prefix_of(s) {
        s.subrange(p.len() as int, s.len() as int)
    } else {
        s
    }
}

/// `s` without a trailing `p`; `s` itself when `p` is not a suffix.
pub open spec fn strip_suffix_spec(s: Seq<char>, p: Seq<char>) -> Seq<char> {
    if p.is_suffix_of(s) {
        s.subrange(0, s.len() - p.len())
    } else {
        s
    }
}

/// Copies `s` with a leading `p` removed.
pub fn strip_prefix_copy(s: &str, p: &str) -> (r: String)
    ensures
        r@ == strip_prefix_spec(s@, p@),
{
    if starts_with(s, p) {
        substring_copy(s, p.unicode_len(), s.unicode_len())
    } else {
        s.to_owned()
    }
}

/// Copies `s` with a trailing `p` removed.
pub fn strip_suffix_copy(s: &str, p: &str) -> (r: String)
    ensures
        r@ == strip_suffix_spec(s@, p@),
{
    if ends_with(s, p) {
        substring_copy(s, 0, s.unicode_len() - p.unicode_len())
    } else {
        s.to_owned()
    }
}

/// `s` with every occurrence of the character `c` replaced by `rep`.
pub open spec fn replace_char_spec(s: Seq<char>, c: char, rep: Seq<char>) -> Seq<char>
    decreases s.len(),
{
    if s.len() == 0 {
        seq![]
    } else {
        replace_char_spec(s.drop_last(), c, rep) + if s.last() == c {
            rep
        } else {
            seq![s.last()]
        }
    }
}

/// Replaces every occurrence of the character `c` in `s` by `rep`.
pub fn replace_char(s: &str, c: char, rep: &str) -> (r: String)
    ensures
        r@ == replace_char_spec(s@, c, rep@),
{
    let len = s.unicode_len();
    let mut out = String::new();
    let mut i: usize = 0;
    while i < len
        invariant
            len == s@.len(),
            i <= len,
            out@ == replace_char_spec(s@.subrange(0, i as int), c, rep@),
        decreases len - i,
    {
        let ch = s.get_char(i);
        if ch == c {
            out.append(rep);
        } else {
            out.push(ch);
        }
        proof {
            let pre = s@.subrange(0, i + 1);
            assert(pre.drop_last() =~= s@.subrange(0, i as int));
            assert(pre.last() == s@[i as int]);
            if ch == c {
                assert(out@ =~= replace_char_spec(pre, c, rep@));
            } else {
                assert(out@ =~= replace_char_spec(pre, c, rep@));
            }
        }
        i += 1;
    }
    proof {
        assert(s@.subrange(0, s@.len() as int) =~= s@);
    }
    out
}

/// End position of the last `::` that finishes at or before position `k` of
/// `path`; zero when there is none.
pub open spec fn last_sep_end(path: Seq<char>, k: int) -> int
    decreases k,
{
    if k < 2 {
        0
    } else if path[k - 2] == ':' && path[k - 1] == ':' {
        k
    } else {
        last_sep_end(path, k - 1)
    }
}

/// The simple name of a `::`-separated path: the segment after the last `::`,
/// or the whole path when no `::` occurs.
pub open spec fn simple_name_of(path: Seq<char>) -> Seq<char> {
    path.subrange(last_sep_end(path, path.len() as int), path.len() as int)
}

/// Extracts the simple name (the final `::` segment) of a symbol path.
pub fn simple_name(path: &str) -> (r: String)
    ensures
        r@ == simple_name_of(path@),
{
    let len = path.unicode_len();
    let mut i: usize = len;
    while i >= 2
        invariant
            len == path@.len(),
            i <= len,
            last_sep_end(path@, len as int) == last_sep_end(path@, i as int),
        decreases i,
    {
        if path.get_char(i - 2) == ':' && path.get_char(i - 1) == ':' {
            return substring_copy(path, i, len);
        }
        i -= 1;
    }
    proof {
        assert(last_sep_end(path@, i as int) == 0);
        assert(path@.subrange(0, path@.len() as int) =~= path@);
    }
    path.to_owned()
}

} // verus!
