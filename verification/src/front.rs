//! Compile-time front end: finds the literal `require("...")` calls of a script, which the
//! compiler resolves while compiling, and the path arithmetic that resolves them.

use vstd::prelude::*;
use vstd::string::{StrSliceExecFns, StringExecFns};

verus! {

/// The characters of `s`, in order.
pub fn chars_of(s: &str) -> (v: Vec<char>)
    ensures
        v@ == s@,
{
    let mut v: Vec<char> = Vec::new();
    for c in it: s.chars()
        invariant
            v@ == it.seq().take(it.index() as int),
            it.seq() == s@,
    {
        v.push(c);
    }
    v
}


/// Blank characters between tokens.
pub open spec fn is_blank(c: char) -> bool {
    c == ' ' || c == '\t' || c == '\n' || c == '\r'
}

/// Characters that start an identifier.
pub open spec fn is_ident_start(c: char) -> bool {
    ('a' <= c && c <= 'z') || ('A' <= c && c <= 'Z') || c == '_'
}

/// Characters that continue an identifier.
pub open spec fn is_ident_char(c: char) -> bool {
    is_ident_start(c) || ('0' <= c && c <= '9')
}

/// First position at or after `i` whose character is not blank (or the end).
pub open spec fn skip_blank(cs: Seq<char>, i: int) -> int
    decreases cs.len() - i,
{
    if i < cs.len() && is_blank(cs[i]) {
        skip_blank(cs, i + 1)
    } else {
        i
    }
}

/// First position at or after `i` that does not continue an identifier (or the end).
pub open spec fn ident_end(cs: Seq<char>, i: int) -> int
    decreases cs.len() - i,
{
    if i < cs.len() && is_ident_char(cs[i]) {
        ident_end(cs, i + 1)
    } else {
        i
    }
}

/// First position at or after `i` holding `c` (or the end).
pub open spec fn find_char(cs: Seq<char>, i: int, c: char) -> int
    decreases cs.len() - i,
{
    if i < cs.len() && cs[i] != c {
        find_char(cs, i + 1, c)
    } else {
        i
    }
}

/// Position just past the `*/` that closes a block comment whose body starts at `i`
/// (or the end).
pub open spec fn block_end(cs: Seq<char>, i: int) -> int
    decreases cs.len() - i,
{
    if i + 1 < cs.len() {
        if cs[i] == '*' && cs[i + 1] == '/' {
            i + 2
        } else {
            block_end(cs, i + 1)
        }
    } else {
        cs.len() as int
    }
}

/// Position just past the quote that closes a string literal whose body starts at `i`
/// (a backslash escapes the next character), or the end.
pub open spec fn string_end(cs: Seq<char>, i: int) -> int
    decreases cs.len() - i,
{
    if i >= cs.len() {
        cs.len() as int
    } else if cs[i] == '"' {
        i + 1
    } else if cs[i] == '\\' {
        if i + 1 < cs.len() {
            string_end(cs, i + 2)
        } else {
            cs.len() as int
        }
    } else {
        string_end(cs, i + 1)
    }
}

/// Position of the first quote, backslash or line break at or after `i` (or the end).
pub open spec fn plain_literal_end(cs: Seq<char>, i: int) -> int
    decreases cs.len() - i,
{
    if i < cs.len() && cs[i] != '"' && cs[i] != '\\' && cs[i] != '\n' {
        plain_literal_end(cs, i + 1)
    } else {
        i
    }
}

/// The word `require`.
pub open spec fn require_word() -> Seq<char> {
    seq!['r', 'e', 'q', 'u', 'i', 'r', 'e']
}

/// After the word `require` ending at `j`: when `( "literal" )` follows (blanks allowed
/// around the parentheses, the literal without escapes or line breaks), the literal's
/// character range and the position past `)`.
pub open spec fn require_call(cs: Seq<char>, j: int) -> Option<(int, int, int)> {
    let p = skip_blank(cs, j);
    if p < cs.len() && cs[p] == '(' {
        let q = skip_blank(cs, p + 1);
        if q < cs.len() && cs[q] == '"' {
            let r = plain_literal_end(cs, q + 1);
            if r < cs.len() && cs[r] == '"' {
                let t = skip_blank(cs, r + 1);
                if t < cs.len() && cs[t] == ')' {
                    Some((q + 1, r, t + 1))
                } else {
                    None
                }
            } else {
                None
            }
        } else {
            None
        }
    } else {
        None
    }
}

/// Where scanning goes after the token starting at `i` (`i < cs.len()`): past a comment,
/// a string literal, an identifier, or one other character.
pub open spec fn next_token(cs: Seq<char>, i: int) -> int {
    if cs[i] == '/' && i + 1 < cs.len() && cs[i + 1] == '/' {
        find_char(cs, i + 2, '\n')
    } else if cs[i] == '/' && i + 1 < cs.len() && cs[i + 1] == '*' {
        block_end(cs, i + 2)
    } else if cs[i] == '"' {
        string_end(cs, i + 1)
    } else if is_ident_start(cs[i]) {
        ident_end(cs, i)
    } else {
        i + 1
    }
}

/// The character ranges of the literal arguments of `require("...")` calls at or after
/// position `i`, in source order. Comments and string literals are skipped; `require` must
/// be a whole identifier.
pub open spec fn scan_requires(cs: Seq<char>, i: int) -> Seq<(int, int)>
    decreases cs.len() - i,
{
    if i < 0 || i >= cs.len() {
        Seq::empty()
    } else {
        let n = next_token(cs, i);
        if n <= i || n > cs.len() {
            Seq::empty()
        } else if is_ident_start(cs[i]) && cs.subrange(i, n) == require_word() {
            match require_call(cs, n) {
                Some((a, b, k)) => if i < k <= cs.len() {
                    seq![(a, b)] + scan_requires(cs, k)
                } else {
                    Seq::empty()
                },
                None => scan_requires(cs, n),
            }
        } else {
            scan_requires(cs, n)
        }
    }
}

/// `find_char` gives the first position at or after `i` that holds `c`: every character
/// before it is another one, and it holds `c` unless it is the end.
pub proof fn lemma_find_char_first(cs: Seq<char>, i: int, c: char)
    requires
        0 <= i <= cs.len(),
    ensures
        i <= find_char(cs, i, c) <= cs.len(),
        find_char(cs, i, c) < cs.len() ==> cs[find_char(cs, i, c)] == c,
        forall|k: int| i <= k < find_char(cs, i, c) ==> #[trigger] cs[k] != c,
    decreases cs.len() - i,
{
    if i < cs.len() && cs[i] != c {
        lemma_find_char_first(cs, i + 1, c);
    }
}

/// A line comment ends at the first line break after it: the scan for `require`s goes on
/// from that line break, so a `require("...")` on a later line is found.
pub proof fn lemma_line_comment_ends_at_newline(cs: Seq<char>, i: int, p: int)
    requires
        0 <= i,
        i + 2 <= p < cs.len(),
        cs[i] == '/',
        cs[i + 1] == '/',
        cs[p] == '\n',
        forall|k: int| i + 2 <= k < p ==> cs[k] != '\n',
    ensures
        scan_requires(cs, i) == scan_requires(cs, p),
{
    lemma_find_char_first(cs, i + 2, '\n');
    let f = find_char(cs, i + 2, '\n');
    if f < p {
        assert(cs[f] == '\n');
    }
    if f > p {
        assert(cs[p] != '\n');
    }
    assert(next_token(cs, i) == p);
}

/// Each helper position function stays within `[i, len]` (for `0 <= i <= len`).
proof fn lemma_positions(cs: Seq<char>, i: int)
    requires
        0 <= i <= cs.len(),
    ensures
        i <= skip_blank(cs, i) <= cs.len(),
        i <= ident_end(cs, i) <= cs.len(),
        i <= plain_literal_end(cs, i) <= cs.len(),
        i <= find_char(cs, i, '\n') <= cs.len(),
        i <= block_end(cs, i) <= cs.len(),
        i <= string_end(cs, i) <= cs.len(),
    decreases cs.len() - i,
{
    if i < cs.len() {
        lemma_positions(cs, i + 1);
        if i + 2 <= cs.len() {
            lemma_positions(cs, i + 2);
        }
    }
}

fn exec_skip_blank(cs: &Vec<char>, i: usize) -> (r: usize)
    requires
        i <= cs@.len(),
    ensures
        r == skip_blank(cs@, i as int),
{
    let mut k = i;
    while k < cs.len() && (cs[k] == ' ' || cs[k] == '\t' || cs[k] == '\n' || cs[k] == '\r')
        invariant
            i <= k <= cs@.len(),
            skip_blank(cs@, i as int) == skip_blank(cs@, k as int),
        decreases cs@.len() - k,
    {
        k = k + 1;
    }
    k
}

fn exec_ident_end(cs: &Vec<char>, i: usize) -> (r: usize)
    requires
        i <= cs@.len(),
    ensures
        r == ident_end(cs@, i as int),
{
    let mut k = i;
    while k < cs.len() && (('a' <= cs[k] && cs[k] <= 'z') || ('A' <= cs[k] && cs[k] <= 'Z')
        || cs[k] == '_' || ('0' <= cs[k] && cs[k] <= '9'))
        invariant
            i <= k <= cs@.len(),
            ident_end(cs@, i as int) == ident_end(cs@, k as int),
        decreases cs@.len() - k,
    {
        k = k + 1;
    }
    k
}

fn exec_find_newline(cs: &Vec<char>, i: usize) -> (r: usize)
    requires
        i <= cs@.len(),
    ensures
        r == find_char(cs@, i as int, '\n'),
{
    let mut k = i;
    while k < cs.len() && cs[k] != '\n'
        invariant
            i <= k <= cs@.len(),
            find_char(cs@, i as int, '\n') == find_char(cs@, k as int, '\n'),
        decreases cs@.len() - k,
    {
        k = k + 1;
    }
    k
}

fn exec_plain_literal_end(cs: &Vec<char>, i: usize) -> (r: usize)
    requires
        i <= cs@.len(),
    ensures
        r == plain_literal_end(cs@, i as int),
{
    let mut k = i;
    while k < cs.len() && cs[k] != '"' && cs[k] != '\\' && cs[k] != '\n'
        invariant
            i <= k <= cs@.len(),
            plain_literal_end(cs@, i as int) == plain_literal_end(cs@, k as int),
        decreases cs@.len() - k,
    {
        k = k + 1;
    }
    k
}

fn exec_block_end(cs: &Vec<char>, i: usize) -> (r: usize)
    requires
        i <= cs@.len(),
    ensures
        r == block_end(cs@, i as int),
{
    let mut k = i;
    while cs.len() > 0 && k < cs.len() - 1
        invariant
            i <= k <= cs@.len(),
            block_end(cs@, i as int) == block_end(cs@, k as int),
        decreases cs@.len() - k,
    {
        if cs[k] == '*' && cs[k + 1] == '/' {
            return k + 2;
        }
        k = k + 1;
    }
    cs.len()
}

fn exec_string_end(cs: &Vec<char>, i: usize) -> (r: usize)
    requires
        i <= cs@.len(),
    ensures
        r == string_end(cs@, i as int),
{
    let mut k = i;
    while k < cs.len()
        invariant
            i <= k <= cs@.len(),
            string_end(cs@, i as int) == string_end(cs@, k as int),
        decreases cs@.len() - k,
    {
        if cs[k] == '"' {
            return k + 1;
        } else if cs[k] == '\\' {
            if k + 1 < cs.len() {
                k = k + 2;
            } else {
                return cs.len();
            }
        } else {
            k = k + 1;
        }
    }
    cs.len()
}

fn exec_require_call(cs: &Vec<char>, j: usize) -> (r: Option<(usize, usize, usize)>)
    requires
        j <= cs@.len(),
    ensures
        match require_call(cs@, j as int) {
            Some((a, b, k)) => r == Some((a as usize, b as usize, k as usize)),
            None => r is None,
        },
        r matches Some((a, b, k)) ==> j < a <= b < k <= cs@.len() && require_call(cs@, j as int)
            == Some((a as int, b as int, k as int)),
        r is None ==> require_call(cs@, j as int) is None,
{
    proof {
        lemma_positions(cs@, j as int);
    }
    let p = exec_skip_blank(cs, j);
    if !(p < cs.len() && cs[p] == '(') {
        return None;
    }
    proof {
        lemma_positions(cs@, p + 1);
    }
    let q = exec_skip_blank(cs, p + 1);
    if !(q < cs.len() && cs[q] == '"') {
        return None;
    }
    proof {
        lemma_positions(cs@, q + 1);
    }
    let r = exec_plain_literal_end(cs, q + 1);
    if !(r < cs.len() && cs[r] == '"') {
        return None;
    }
    proof {
        lemma_positions(cs@, r + 1);
    }
    let t = exec_skip_blank(cs, r + 1);
    if !(t < cs.len() && cs[t] == ')') {
        return None;
    }
    Some((q + 1, r, t + 1))
}

/// Whether `cs[i..n]` is the word `require`.
fn is_require_word(cs: &Vec<char>, i: usize, n: usize) -> (r: bool)
    requires
        i <= n <= cs@.len(),
    ensures
        r == (cs@.subrange(i as int, n as int) == require_word()),
{
    if n - i != 7 {
        proof {
            assert(cs@.subrange(i as int, n as int).len() != require_word().len());
        }
        return false;
    }
    let r = cs[i] == 'r' && cs[i + 1] == 'e' && cs[i + 2] == 'q' && cs[i + 3] == 'u' && cs[i + 4]
        == 'i' && cs[i + 5] == 'r' && cs[i + 6] == 'e';
    proof {
        let w = cs@.subrange(i as int, n as int);
        if r {
            assert(w =~= require_word());
        } else {
            assert(w != require_word()) by {
                if w == require_word() {
                    assert(w[0] == 'r' && w[1] == 'e' && w[2] == 'q' && w[3] == 'u' && w[4] == 'i'
                        && w[5] == 'r' && w[6] == 'e');
                }
            }
        }
    }
    r
}

/// The character ranges of the literal `require("...")` arguments in `cs`, in source order.
#[verifier::rlimit(40)]
pub fn find_requires(cs: &Vec<char>) -> (r: Vec<(usize, usize)>)
    ensures
        r@.len() == scan_requires(cs@, 0).len(),
        forall|k: int|
            #![trigger r@[k]]
            0 <= k < r@.len() ==> r@[k].0 as int == scan_requires(cs@, 0)[k].0 && r@[k].1 as int
                == scan_requires(cs@, 0)[k].1 && r@[k].0 <= r@[k].1 <= cs@.len(),
{
    let mut out: Vec<(usize, usize)> = Vec::new();
    let mut i: usize = 0;
    let ghost total = scan_requires(cs@, 0);
    loop
        invariant
            i <= cs@.len(),
            total == scan_requires(cs@, 0),
            out@.len() + scan_requires(cs@, i as int).len() == total.len(),
            forall|k: int|
                #![trigger out@[k]]
                0 <= k < out@.len() ==> out@[k].0 as int == total[k].0 && out@[k].1 as int
                    == total[k].1 && out@[k].0 <= out@[k].1 <= cs@.len(),
            forall|k: int|
                0 <= k < scan_requires(cs@, i as int).len() ==> total[out@.len() + k]
                    == scan_requires(cs@, i as int)[k],
        decreases cs@.len() - i,
    {
        if i >= cs.len() {
            return out;
        }
        proof {
            lemma_positions(cs@, i + 1);
            if i + 2 <= cs@.len() {
                lemma_positions(cs@, i + 2);
            }
            lemma_positions(cs@, i as int);
        }
        let c = cs[i];
        let n = if c == '/' && i + 1 < cs.len() && cs[i + 1] == '/' {
            exec_find_newline(cs, i + 2)
        } else if c == '/' && i + 1 < cs.len() && cs[i + 1] == '*' {
            exec_block_end(cs, i + 2)
        } else if c == '"' {
            exec_string_end(cs, i + 1)
        } else if ('a' <= c && c <= 'z') || ('A' <= c && c <= 'Z') || c == '_' {
            exec_ident_end(cs, i)
        } else {
            i + 1
        };
        assert(n == next_token(cs@, i as int));
        if n <= i || n > cs.len() {
            return out;
        }
        let is_ident = ('a' <= c && c <= 'z') || ('A' <= c && c <= 'Z') || c == '_';
        if is_ident && is_require_word(cs, i, n) {
            match exec_require_call(cs, n) {
                Some((a, b, k)) => {
                    let ghost rest = scan_requires(cs@, k as int);
                    let ghost here = scan_requires(cs@, i as int);
                    assert(require_call(cs@, n as int) == Some((a as int, b as int, k as int)));
                    assert(here == seq![(a as int, b as int)] + rest);
                    let ghost old_out = out@;
                    out.push((a, b));
                    proof {
                        assert forall|m: int| 0 <= m < rest.len() implies total[out@.len() + m]
                            == rest[m] by {
                            assert(here[1 + m] == rest[m]);
                        }
                        assert(here[0] == (a as int, b as int));
                        assert(total[old_out.len() as int] == here[0]);
                        assert forall|m: int| 0 <= m < out@.len() implies out@[m].0 as int == total[m].0
                            && out@[m].1 as int == total[m].1 && out@[m].0 <= out@[m].1 <= cs@.len() by {
                            if m < old_out.len() {
                                assert(out@[m] == old_out[m]);
                            }
                        }
                    }
                    i = k;
                },
                None => {
                    i = n;
                },
            }
        } else {
            i = n;
        }
    }
}


/// The literal arguments of the `require("...")` calls in `source`, in source order.
pub open spec fn spec_literal_requires(source: Seq<char>) -> Seq<Seq<char>> {
    scan_requires(source, 0).map_values(|r: (int, int)| source.subrange(r.0, r.1))
}

/// The literal arguments of the `require("...")` calls in `source`, in source order.
pub fn literal_requires(source: &str) -> (r: Vec<String>)
    ensures
        r@.map_values(|s: String| s@) == spec_literal_requires(source@),
{
    let cs = chars_of(source);
    let ranges = find_requires(&cs);
    let ghost total = scan_requires(source@, 0);
    let mut out: Vec<String> = Vec::new();
    let mut k: usize = 0;
    while k < ranges.len()
        invariant
            cs@ == source@,
            total == scan_requires(source@, 0),
            ranges@.len() == total.len(),
            forall|m: int|
                #![trigger ranges@[m]]
                0 <= m < ranges@.len() ==> ranges@[m].0 as int == total[m].0 && ranges@[m].1 as int
                    == total[m].1 && ranges@[m].0 <= ranges@[m].1 <= cs@.len(),
            k <= ranges@.len(),
            out@.map_values(|s: String| s@) == total.take(k as int).map_values(
                |r: (int, int)| source@.subrange(r.0, r.1),
            ),
        decreases ranges@.len() - k,
    {
        let (a, b) = ranges[k];
        assert(ranges@[k as int] == (a, b));
        assert(a <= b <= source@.len());
        let piece = source.substring_char(a, b).to_owned();
        let ghost old_out = out@.map_values(|s: String| s@);
        assert(piece@ == source@.subrange(a as int, b as int));
        assert(total[k as int] == (a as int, b as int));
        out.push(piece);
        proof {
            assert(out@.map_values(|s: String| s@) =~= old_out.push(source@.subrange(a as int, b as int)));
            assert(total.take(k + 1) =~= total.take(k as int).push(total[k as int]));
            assert(out@.map_values(|s: String| s@) =~= total.take(k + 1).map_values(
                |r: (int, int)| source@.subrange(r.0, r.1),
            ));
        }
        k = k + 1;
    }
    proof {
        assert(total.take(ranges@.len() as int) =~= total);
    }
    out
}

/// Index of the last `/` in `s`, or -1.
pub open spec fn last_slash(s: Seq<char>) -> int
    decreases s.len(),
{
    if s.len() == 0 {
        -1
    } else if s.last() == '/' {
        s.len() - 1
    } else {
        last_slash(s.drop_last())
    }
}

/// The path of a literal `require` argument: an absolute literal (`/...`) as written;
/// otherwise relative to the directory of `base` (the text of `base` up to and including
/// its last `/`), or as written when `base` has no directory part.
pub open spec fn spec_resolve(base: Seq<char>, lit: Seq<char>) -> Seq<char> {
    if lit.len() > 0 && lit[0] == '/' {
        lit
    } else if last_slash(base) < 0 {
        lit
    } else {
        base.subrange(0, last_slash(base) + 1) + lit
    }
}

/// Resolve a literal `require` argument against the path of the file that holds it.
pub fn resolve_require_path(base: &str, lit: &str) -> (r: String)
    ensures
        r@ == spec_resolve(base@, lit@),
{
    let lc = chars_of(lit);
    if lc.len() > 0 && lc[0] == '/' {
        return lit.to_owned();
    }
    let bc = chars_of(base);
    let mut i = bc.len();
    proof {
        assert(base@.subrange(0, base@.len() as int) =~= base@);
    }
    while i > 0 && bc[i - 1] != '/'
        invariant
            bc@ == base@,
            i <= bc@.len(),
            last_slash(base@) == last_slash(base@.subrange(0, i as int)),
        decreases i,
    {
        proof {
            assert(base@.subrange(0, i as int).drop_last() =~= base@.subrange(0, i - 1));
        }
        i = i - 1;
    }
    if i == 0 {
        proof {
            assert(base@.subrange(0, 0) =~= Seq::<char>::empty());
        }
        return lit.to_owned();
    }
    proof {
        assert(base@.subrange(0, i as int).last() == '/');
    }
    let mut out = base.substring_char(0, i).to_owned();
    out.append(lit);
    out
}

} // verus!
