//! Byte-string algorithms behind the String builtin class and string values:
//! hashing, equality, search, split, replace, substring, trim and integer formatting.

use vstd::prelude::*;

verus! {

/// The djb2 hash of a non-empty byte string: start at 5381, then for each byte `c`
/// (read as a signed byte) `h = h * 33 + c`, wrapping at the width of `isize`.
pub open spec fn djb2(s: Seq<u8>) -> isize
    decreases s.len(),
{
    if s.len() == 0 {
        5381
    } else {
        djb2(s.drop_last()).wrapping_mul(33).wrapping_add(signed_byte(s.last()))
    }
}

/// A byte read as a signed 8-bit value, widened.
pub open spec fn signed_byte(b: u8) -> isize {
    if b < 128 {
        b as isize
    } else {
        (b as int - 256) as isize
    }
}

/// The hash of a string buffer: 0 for an empty buffer, else its djb2 hash.
pub open spec fn spec_hash_code(s: Seq<u8>) -> isize {
    if s.len() == 0 {
        0
    } else {
        djb2(s)
    }
}

/// Hash of a string buffer: 0 when it is empty, else the djb2 hash of its bytes.
pub fn gen_hash_code(buf: &[u8]) -> (h: isize)
    ensures
        h == spec_hash_code(buf@),
{
    if buf.len() == 0 {
        return 0;
    }
    let mut hash: isize = 5381;
    let mut i: usize = 0;
    while i < buf.len()
        invariant
            i <= buf@.len(),
            buf@.len() > 0,
            hash == djb2(buf@.subrange(0, i as int)),
        decreases buf@.len() - i,
    {
        let b = buf[i];
        let c: isize = if b < 128 {
            b as isize
        } else {
            b as isize - 256
        };
        proof {
            let s = buf@.subrange(0, i + 1);
            assert(s.drop_last() =~= buf@.subrange(0, i as int));
            assert(s.last() == b);
        }
        hash = hash.wrapping_mul(33).wrapping_add(c);
        i = i + 1;
    }
    proof {
        assert(buf@.subrange(0, buf@.len() as int) =~= buf@);
    }
    hash
}

/// Byte-wise equality of two byte strings.
pub fn bytes_eq(a: &[u8], b: &[u8]) -> (r: bool)
    ensures
        r == (a@ == b@),
{
    if a.len() != b.len() {
        return false;
    }
    let mut i: usize = 0;
    while i < a.len()
        invariant
            a@.len() == b@.len(),
            i <= a@.len(),
            forall|j: int| 0 <= j < i ==> a@[j] == b@[j],
        decreases a@.len() - i,
    {
        if a[i] != b[i] {
            return false;
        }
        i = i + 1;
    }
    proof {
        assert(a@ =~= b@);
    }
    true
}

/// Whether `needle` occurs in `hay` starting at byte `i`.
pub open spec fn matches_at(hay: Seq<u8>, needle: Seq<u8>, i: int) -> bool {
    0 <= i && i + needle.len() <= hay.len() && hay.subrange(i, i + needle.len()) == needle
}

/// The first position at or after `from` where `needle` occurs in `hay`, or -1.
pub open spec fn first_match(hay: Seq<u8>, needle: Seq<u8>, from: int) -> int
    decreases hay.len() - from,
{
    if from < 0 || from + needle.len() > hay.len() {
        -1
    } else if matches_at(hay, needle, from) {
        from
    } else if from >= hay.len() {
        -1
    } else {
        first_match(hay, needle, from + 1)
    }
}

/// `first_match` finds the leftmost occurrence at or after `from`, and -1 exactly when there is none.
pub proof fn lemma_first_match(hay: Seq<u8>, needle: Seq<u8>, from: int)
    requires
        0 <= from,
    ensures
        first_match(hay, needle, from) == -1 || (from <= first_match(hay, needle, from)
            && matches_at(hay, needle, first_match(hay, needle, from))),
        forall|j: int|
            from <= j && (first_match(hay, needle, from) == -1 || j < first_match(
                hay,
                needle,
                from,
            )) ==> !matches_at(hay, needle, j),
    decreases hay.len() - from,
{
    if from + needle.len() > hay.len() {
    } else if matches_at(hay, needle, from) {
    } else if from >= hay.len() {
    } else {
        lemma_first_match(hay, needle, from + 1);
    }
}

/// Whether `needle` occurs at byte `i` of `hay` (`i + needle.len() <= hay.len()`).
fn matches_at_exec(hay: &[u8], needle: &[u8], i: usize) -> (r: bool)
    requires
        i + needle@.len() <= hay@.len(),
    ensures
        r == matches_at(hay@, needle@, i as int),
{
    let mut k: usize = 0;
    let n = hay.len();
    while k < needle.len()
        invariant
            n == hay@.len(),
            i + needle@.len() <= hay@.len(),
            k <= needle@.len(),
            forall|j: int| 0 <= j < k ==> hay@[i + j] == needle@[j],
        decreases needle@.len() - k,
    {
        assert(i + k < hay@.len());
        if hay[i + k] != needle[k] {
            proof {
                assert(hay@.subrange(i as int, i + needle@.len())[k as int] != needle@[k as int]);
            }
            return false;
        }
        k = k + 1;
    }
    proof {
        assert(hay@.subrange(i as int, i + needle@.len()) =~= needle@);
    }
    true
}

/// The first position at or after `from` where `needle` occurs in `hay`.
pub fn find_from(hay: &[u8], needle: &[u8], from: usize) -> (r: Option<usize>)
    ensures
        match r {
            Some(i) => i as int == first_match(hay@, needle@, from as int),
            None => first_match(hay@, needle@, from as int) == -1,
        },
{
    if needle.len() > hay.len() {
        proof {
            assert(first_match(hay@, needle@, from as int) == -1);
        }
        return None;
    }
    let last = hay.len() - needle.len();
    let mut i = from;
    while i <= last
        invariant
            last == hay@.len() - needle@.len(),
            from <= i,
            first_match(hay@, needle@, from as int) == first_match(hay@, needle@, i as int),
        decreases last + 1 - i,
    {
        if matches_at_exec(hay, needle, i) {
            return Some(i);
        }
        if i == last {
            proof {
                assert(first_match(hay@, needle@, i + 1) == -1);
            }
            return None;
        }
        i = i + 1;
    }
    None
}

/// `indexOf`: the first position at or after `from` where `needle` occurs, or -1; also -1
/// when `from` is at or past the end of `hay`.
pub open spec fn spec_index_of(hay: Seq<u8>, needle: Seq<u8>, from: int) -> int {
    if from >= hay.len() {
        -1
    } else {
        first_match(hay, needle, from)
    }
}

/// `indexOf(needle, from)` over byte strings.
pub fn index_of(hay: &[u8], needle: &[u8], from: usize) -> (r: Option<usize>)
    ensures
        match r {
            Some(i) => i as int == spec_index_of(hay@, needle@, from as int),
            None => spec_index_of(hay@, needle@, from as int) == -1,
        },
{
    if from >= hay.len() {
        None
    } else {
        find_from(hay, needle, from)
    }
}

/// The byte length of the UTF-8 character that starts with byte `b`
/// (1 for ASCII and for bytes that cannot start a sequence).
pub open spec fn char_width(b: u8) -> int {
    if b < 0xC0 {
        1
    } else if b < 0xE0 {
        2
    } else if b < 0xF0 {
        3
    } else {
        4
    }
}

/// The text cut into its UTF-8 characters, by the width that each leading byte announces
/// (the last one cut short at the end of the text).
pub open spec fn char_chunks(s: Seq<u8>) -> Seq<Seq<u8>>
    decreases s.len(),
{
    if s.len() == 0 {
        Seq::empty()
    } else {
        let w = if char_width(s[0]) <= s.len() {
            char_width(s[0])
        } else {
            s.len() as int
        };
        seq![s.subrange(0, w)] + char_chunks(s.subrange(w, s.len() as int))
    }
}

/// `split(delim)`: the pieces between successive leftmost non-overlapping occurrences of a
/// non-empty `delim`; an empty `delim` cuts the text into its characters.
pub open spec fn spec_split(s: Seq<u8>, delim: Seq<u8>) -> Seq<Seq<u8>>
    decreases s.len(),
{
    if delim.len() == 0 {
        char_chunks(s)
    } else {
        let i = first_match(s, delim, 0);
        if i < 0 {
            seq![s]
        } else {
            proof {
                lemma_first_match(s, delim, 0);
            }
            seq![s.subrange(0, i)] + spec_split(s.subrange(i + delim.len(), s.len() as int), delim)
        }
    }
}

/// No character of a text is longer than the text.
pub proof fn lemma_char_chunks_len(s: Seq<u8>)
    ensures
        forall|k: int| 0 <= k < char_chunks(s).len() ==> #[trigger] char_chunks(s)[k].len() <= s.len(),
    decreases s.len(),
{
    if s.len() > 0 {
        let w = if char_width(s[0]) <= s.len() {
            char_width(s[0])
        } else {
            s.len() as int
        };
        lemma_char_chunks_len(s.subrange(w, s.len() as int));
        let rest = char_chunks(s.subrange(w, s.len() as int));
        assert(char_chunks(s) == seq![s.subrange(0, w)] + rest);
        assert forall|k: int| 0 <= k < char_chunks(s).len() implies #[trigger] char_chunks(s)[k].len() <= s.len() by {
            if k > 0 {
                assert(char_chunks(s)[k] == rest[k - 1]);
            }
        }
    }
}

/// No piece of a split is longer than the text that was split.
pub proof fn lemma_split_len(s: Seq<u8>, delim: Seq<u8>)
    ensures
        forall|k: int| 0 <= k < spec_split(s, delim).len() ==> #[trigger] spec_split(s, delim)[k].len() <= s.len(),
    decreases s.len(),
{
    if delim.len() == 0 {
        lemma_char_chunks_len(s);
    } else {
        let i = first_match(s, delim, 0);
        lemma_first_match(s, delim, 0);
        if i >= 0 {
            let tail = s.subrange(i + delim.len(), s.len() as int);
            lemma_split_len(tail, delim);
            let rest = spec_split(tail, delim);
            assert(spec_split(s, delim) == seq![s.subrange(0, i)] + rest);
            assert forall|k: int| 0 <= k < spec_split(s, delim).len() implies #[trigger] spec_split(s, delim)[k].len() <= s.len() by {
                if k > 0 {
                    assert(spec_split(s, delim)[k] == rest[k - 1]);
                }
            }
        }
    }
}

/// A UTF-8 continuation byte (`10xxxxxx`).
pub open spec fn is_utf8_cont(b: u8) -> bool {
    0x80 <= b < 0xC0
}

/// The byte length of the well-formed UTF-8 character at the start of `s`: one ASCII byte,
/// or a lead byte `110xxxxx`, `1110xxxx` or `11110xxx` followed by one, two or three
/// continuation bytes; 0 when `s` does not start with one.
pub open spec fn utf8_char_at(s: Seq<u8>) -> int {
    if s.len() >= 1 && s[0] < 0x80 {
        1
    } else if s.len() >= 2 && 0xC0 <= s[0] < 0xE0 && is_utf8_cont(s[1]) {
        2
    } else if s.len() >= 3 && 0xE0 <= s[0] < 0xF0 && is_utf8_cont(s[1]) && is_utf8_cont(s[2]) {
        3
    } else if s.len() >= 4 && 0xF0 <= s[0] < 0xF8 && is_utf8_cont(s[1]) && is_utf8_cont(s[2])
        && is_utf8_cont(s[3]) {
        4
    } else {
        0
    }
}

/// The encoded characters of `s`, one byte sequence each and in order, when `s` is a
/// sequence of well-formed UTF-8 characters; `None` otherwise.
pub open spec fn utf8_chars(s: Seq<u8>) -> Option<Seq<Seq<u8>>>
    decreases s.len(),
{
    if s.len() == 0 {
        Some(Seq::empty())
    } else {
        let n = utf8_char_at(s);
        if n <= 0 || n > s.len() {
            None
        } else {
            match utf8_chars(s.subrange(n, s.len() as int)) {
                Some(cs) => Some(seq![s.subrange(0, n)] + cs),
                None => None,
            }
        }
    }
}

/// Splitting by an empty delimiter cuts a UTF-8 text into its characters: when `s` is a
/// sequence of well-formed UTF-8 characters, the pieces are exactly those characters, each
/// piece one whole character, in order (so there are as many pieces as characters).
pub proof fn lemma_split_empty_gives_chars(s: Seq<u8>)
    requires
        utf8_chars(s) is Some,
    ensures
        spec_split(s, Seq::empty()) == utf8_chars(s).unwrap(),
        spec_split(s, Seq::empty()).len() == utf8_chars(s).unwrap().len(),
    decreases s.len(),
{
    if s.len() > 0 {
        let n = utf8_char_at(s);
        let t = s.subrange(n, s.len() as int);
        lemma_split_empty_gives_chars(t);
        assert(char_width(s[0]) == n);
        assert(char_chunks(s) == seq![s.subrange(0, n)] + char_chunks(t));
        assert(spec_split(t, Seq::empty()) == char_chunks(t));
    }
}

/// Cut `s` into its characters (see `char_chunks`).
pub fn split_chars(s: &[u8]) -> (r: Vec<Vec<u8>>)
    ensures
        r@.map_values(|v: Vec<u8>| v@) == char_chunks(s@),
{
    let mut out: Vec<Vec<u8>> = Vec::new();
    let mut i: usize = 0;
    proof {
        assert(s@.subrange(0, s@.len() as int) =~= s@);
        assert(out@.map_values(|v: Vec<u8>| v@) =~= Seq::<Seq<u8>>::empty());
        assert(Seq::<Seq<u8>>::empty() + char_chunks(s@) =~= char_chunks(s@));
    }
    while i < s.len()
        invariant
            i <= s@.len(),
            out@.map_values(|v: Vec<u8>| v@) + char_chunks(s@.subrange(i as int, s@.len() as int))
                == char_chunks(s@),
        decreases s@.len() - i,
    {
        let b = s[i];
        let w: usize = if b < 0xC0 {
            1
        } else if b < 0xE0 {
            2
        } else if b < 0xF0 {
            3
        } else {
            4
        };
        let rest = s.len() - i;
        let w = if w <= rest {
            w
        } else {
            rest
        };
        let mut piece: Vec<u8> = Vec::new();
        let mut k: usize = 0;
        let n = s.len();
        while k < w
            invariant
                n == s@.len(),
                w <= s@.len() - i,
                k <= w,
                piece@ == s@.subrange(i as int, i + k),
            decreases w - k,
        {
            assert(i + k < s@.len());
            piece.push(s[i + k]);
            k = k + 1;
            proof {
                assert(piece@ =~= s@.subrange(i as int, i + k));
            }
        }
        let ghost tail = s@.subrange(i as int, s@.len() as int);
        let ghost old_out = out@.map_values(|v: Vec<u8>| v@);
        out.push(piece);
        proof {
            assert(tail[0] == b);
            assert(tail.subrange(0, w as int) =~= s@.subrange(i as int, i + w));
            assert(tail.subrange(w as int, tail.len() as int) =~= s@.subrange(
                i + w,
                s@.len() as int,
            ));
            assert(char_chunks(tail) == seq![s@.subrange(i as int, i + w)] + char_chunks(
                s@.subrange(i + w, s@.len() as int),
            ));
            assert(out@.map_values(|v: Vec<u8>| v@) =~= old_out.push(s@.subrange(i as int, i + w)));
            assert(old_out.push(s@.subrange(i as int, i + w)) + char_chunks(
                s@.subrange(i + w, s@.len() as int),
            ) =~= old_out + char_chunks(tail));
        }
        i = i + w;
    }
    proof {
        assert(s@.subrange(s@.len() as int, s@.len() as int) =~= Seq::<u8>::empty());
        assert(out@.map_values(|v: Vec<u8>| v@) + Seq::<Seq<u8>>::empty() =~= out@.map_values(
            |v: Vec<u8>| v@,
        ));
    }
    out
}

/// The bytes `s[lo..hi]` as a new vector.
pub fn slice_to_vec(s: &[u8], lo: usize, hi: usize) -> (r: Vec<u8>)
    requires
        lo <= hi <= s@.len(),
    ensures
        r@ == s@.subrange(lo as int, hi as int),
{
    let mut out: Vec<u8> = Vec::new();
    let mut k = lo;
    while k < hi
        invariant
            lo <= k <= hi,
            hi <= s@.len(),
            out@ == s@.subrange(lo as int, k as int),
        decreases hi - k,
    {
        out.push(s[k]);
        k = k + 1;
        proof {
            assert(out@ =~= s@.subrange(lo as int, k as int));
        }
    }
    out
}


/// Searching a suffix of `hay` is searching `hay` from the suffix's start, shifted.
pub proof fn lemma_first_match_shift(hay: Seq<u8>, needle: Seq<u8>, k: int, j: int)
    requires
        0 <= k <= hay.len(),
        0 <= j,
    ensures
        first_match(hay.subrange(k, hay.len() as int), needle, j) == (if first_match(
            hay,
            needle,
            k + j,
        ) == -1 {
            -1
        } else {
            first_match(hay, needle, k + j) - k
        }),
    decreases hay.len() - (k + j),
{
    let t = hay.subrange(k, hay.len() as int);
    if j + needle.len() > t.len() {
    } else {
        assert(t.subrange(j, j + needle.len()) =~= hay.subrange(k + j, k + j + needle.len()));
        if matches_at(t, needle, j) {
        } else if j >= t.len() {
        } else {
            lemma_first_match_shift(hay, needle, k, j + 1);
        }
    }
}

/// Split `s` at every leftmost non-overlapping occurrence of `delim` (into characters when
/// `delim` is empty).
pub fn split_bytes(s: &[u8], delim: &[u8]) -> (r: Vec<Vec<u8>>)
    ensures
        r@.map_values(|v: Vec<u8>| v@) == spec_split(s@, delim@),
{
    if delim.len() == 0 {
        return split_chars(s);
    }
    let mut out: Vec<Vec<u8>> = Vec::new();
    let mut start: usize = 0;
    proof {
        assert(s@.subrange(0, s@.len() as int) =~= s@);
        assert(out@.map_values(|v: Vec<u8>| v@) + spec_split(s@, delim@) =~= spec_split(
            s@,
            delim@,
        ));
    }
    let slen = s.len();
    loop
        invariant
            slen == s@.len(),
            start <= s@.len(),
            delim@.len() > 0,
            out@.map_values(|v: Vec<u8>| v@) + spec_split(
                s@.subrange(start as int, s@.len() as int),
                delim@,
            ) == spec_split(s@, delim@),
        decreases s@.len() - start,
    {
        let ghost rest = s@.subrange(start as int, s@.len() as int);
        let ghost old_out = out@.map_values(|v: Vec<u8>| v@);
        proof {
            lemma_first_match_shift(s@, delim@, start as int, 0);
            lemma_first_match(s@, delim@, start as int);
        }
        match find_from(s, delim, start) {
            None => {
                let piece = slice_to_vec(s, start, s.len());
                out.push(piece);
                proof {
                    assert(spec_split(rest, delim@) == seq![rest]);
                    assert(out@.map_values(|v: Vec<u8>| v@) =~= old_out.push(rest));
                    assert(old_out + seq![rest] =~= old_out.push(rest));
                }
                return out;
            },
            Some(i) => {
                let piece = slice_to_vec(s, start, i);
                out.push(piece);
                assert(matches_at(s@, delim@, i as int));
                let next = i + delim.len();
                proof {
                    let li = i - start;
                    assert(first_match(rest, delim@, 0) == li);
                    assert(rest.subrange(0, li) =~= s@.subrange(start as int, i as int));
                    assert(rest.subrange(li + delim@.len(), rest.len() as int) =~= s@.subrange(
                        next as int,
                        s@.len() as int,
                    ));
                    assert(spec_split(rest, delim@) == seq![s@.subrange(start as int, i as int)]
                        + spec_split(s@.subrange(next as int, s@.len() as int), delim@));
                    assert(out@.map_values(|v: Vec<u8>| v@) =~= old_out.push(
                        s@.subrange(start as int, i as int),
                    ));
                    assert(old_out.push(s@.subrange(start as int, i as int)) + spec_split(
                        s@.subrange(next as int, s@.len() as int),
                        delim@,
                    ) =~= old_out + spec_split(rest, delim@));
                }
                start = next;
            },
        }
    }
}

/// The concatenation `c0 + rep + c1 + rep + ...`: each piece followed by `rep`.
pub open spec fn join_after(cs: Seq<Seq<u8>>, rep: Seq<u8>) -> Seq<u8>
    decreases cs.len(),
{
    if cs.len() == 0 {
        Seq::empty()
    } else {
        join_after(cs.drop_last(), rep) + cs.last() + rep
    }
}

/// `replace(pat, rep)`: every leftmost non-overlapping occurrence of a non-empty `pat`
/// replaced by `rep`; an empty `pat` matches before every character and at the end.
pub open spec fn spec_replace(s: Seq<u8>, pat: Seq<u8>, rep: Seq<u8>) -> Seq<u8>
    decreases s.len(),
{
    if pat.len() == 0 {
        rep + join_after(char_chunks(s), rep)
    } else {
        let i = first_match(s, pat, 0);
        if i < 0 {
            s
        } else {
            proof {
                lemma_first_match(s, pat, 0);
            }
            s.subrange(0, i) + rep + spec_replace(s.subrange(i + pat.len(), s.len() as int), pat, rep)
        }
    }
}

/// Append `b` to `out`.
pub fn extend_bytes(out: &mut Vec<u8>, b: &[u8])
    ensures
        final(out)@ == old(out)@ + b@,
{
    let mut k: usize = 0;
    while k < b.len()
        invariant
            k <= b@.len(),
            out@ == old(out)@ + b@.subrange(0, k as int),
        decreases b@.len() - k,
    {
        out.push(b[k]);
        k = k + 1;
        proof {
            assert(out@ =~= old(out)@ + b@.subrange(0, k as int));
        }
    }
    proof {
        assert(b@.subrange(0, b@.len() as int) =~= b@);
    }
}

/// Replace every leftmost non-overlapping occurrence of `pat` in `s` by `rep`.
pub fn replace_bytes(s: &[u8], pat: &[u8], rep: &[u8]) -> (r: Vec<u8>)
    ensures
        r@ == spec_replace(s@, pat@, rep@),
{
    if pat.len() == 0 {
        let chunks = split_chars(s);
        let ghost cs = chunks@.map_values(|v: Vec<u8>| v@);
        let mut out: Vec<u8> = Vec::new();
        extend_bytes(&mut out, rep);
        let mut i: usize = 0;
        proof {
            assert(cs.take(0) =~= Seq::<Seq<u8>>::empty());
            assert(out@ =~= rep@ + join_after(cs.take(0), rep@));
        }
        while i < chunks.len()
            invariant
                i <= chunks@.len(),
                cs == chunks@.map_values(|v: Vec<u8>| v@),
                out@ == rep@ + join_after(cs.take(i as int), rep@),
            decreases chunks@.len() - i,
        {
            extend_bytes(&mut out, chunks[i].as_slice());
            extend_bytes(&mut out, rep);
            proof {
                assert(cs.take(i + 1).drop_last() =~= cs.take(i as int));
                assert(cs.take(i + 1).last() == chunks@[i as int]@);
                assert(out@ =~= rep@ + join_after(cs.take(i + 1), rep@));
            }
            i = i + 1;
        }
        proof {
            assert(cs.take(chunks@.len() as int) =~= cs);
        }
        return out;
    }
    let mut out: Vec<u8> = Vec::new();
    let mut start: usize = 0;
    proof {
        assert(s@.subrange(0, s@.len() as int) =~= s@);
        assert(out@ + spec_replace(s@, pat@, rep@) =~= spec_replace(s@, pat@, rep@));
    }
    let slen = s.len();
    loop
        invariant
            slen == s@.len(),
            start <= s@.len(),
            pat@.len() > 0,
            out@ + spec_replace(s@.subrange(start as int, s@.len() as int), pat@, rep@)
                == spec_replace(s@, pat@, rep@),
        decreases s@.len() - start,
    {
        let ghost rest = s@.subrange(start as int, s@.len() as int);
        let ghost old_out = out@;
        proof {
            lemma_first_match_shift(s@, pat@, start as int, 0);
            lemma_first_match(s@, pat@, start as int);
        }
        match find_from(s, pat, start) {
            None => {
                let piece = slice_to_vec(s, start, s.len());
                extend_bytes(&mut out, piece.as_slice());
                return out;
            },
            Some(i) => {
                let piece = slice_to_vec(s, start, i);
                extend_bytes(&mut out, piece.as_slice());
                extend_bytes(&mut out, rep);
                assert(matches_at(s@, pat@, i as int));
                let next = i + pat.len();
                proof {
                    let li = i - start;
                    assert(first_match(rest, pat@, 0) == li);
                    assert(rest.subrange(0, li) =~= s@.subrange(start as int, i as int));
                    assert(rest.subrange(li + pat@.len(), rest.len() as int) =~= s@.subrange(
                        next as int,
                        s@.len() as int,
                    ));
                    assert(out@ + spec_replace(s@.subrange(next as int, s@.len() as int), pat@, rep@)
                        =~= old_out + spec_replace(rest, pat@, rep@));
                }
                start = next;
            },
        }
    }
}

/// `substring(start, end)` over bytes: both bounds clamped to the length, and swapped when
/// `start` is past `end`.
pub open spec fn spec_substring(s: Seq<u8>, start: int, end: int) -> Seq<u8> {
    let st = if start > s.len() {
        s.len() as int
    } else {
        start
    };
    let en = if end > s.len() {
        s.len() as int
    } else {
        end
    };
    if st <= en {
        s.subrange(st, en)
    } else {
        s.subrange(en, st)
    }
}

/// With `start <= end <= len`, `substring(start, end)` is the bytes from `start` up to
/// `end`: `end - start` bytes, the k-th being `s[start + k]`.
pub proof fn lemma_substring_range(s: Seq<u8>, start: int, end: int)
    requires
        0 <= start <= end <= s.len(),
    ensures
        spec_substring(s, start, end).len() == end - start,
        forall|k: int| 0 <= k < end - start ==> #[trigger] spec_substring(s, start, end)[k] == s[start + k],
{
}

/// The order of the two bounds of `substring` does not matter.
pub proof fn lemma_substring_symmetric(s: Seq<u8>, a: int, b: int)
    requires
        0 <= a,
        0 <= b,
    ensures
        spec_substring(s, a, b) == spec_substring(s, b, a),
{
}

/// A bound of `substring` past the end counts as the end.
pub proof fn lemma_substring_clamped(s: Seq<u8>, a: int, b: int)
    requires
        0 <= a,
        0 <= b,
    ensures
        spec_substring(s, a, b) == spec_substring(
            s,
            if a > s.len() { s.len() as int } else { a },
            if b > s.len() { s.len() as int } else { b },
        ),
{
}

/// The bytes between two clamped positions of `s`.
pub fn substring_bytes(s: &[u8], start: usize, end: usize) -> (r: Vec<u8>)
    ensures
        r@ == spec_substring(s@, start as int, end as int),
{
    let len = s.len();
    let st = if start > len {
        len
    } else {
        start
    };
    let en = if end > len {
        len
    } else {
        end
    };
    if st <= en {
        slice_to_vec(s, st, en)
    } else {
        slice_to_vec(s, en, st)
    }
}

/// ASCII whitespace: space, tab, line feed, form feed, carriage return.
pub open spec fn is_ascii_ws(b: u8) -> bool {
    b == 0x20 || b == 0x09 || b == 0x0A || b == 0x0C || b == 0x0D
}

/// The text without its leading ASCII whitespace.
pub open spec fn trim_start(s: Seq<u8>) -> Seq<u8>
    decreases s.len(),
{
    if s.len() > 0 && is_ascii_ws(s[0]) {
        trim_start(s.drop_first())
    } else {
        s
    }
}

/// The text without its trailing ASCII whitespace.
pub open spec fn trim_end(s: Seq<u8>) -> Seq<u8>
    decreases s.len(),
{
    if s.len() > 0 && is_ascii_ws(s.last()) {
        trim_end(s.drop_last())
    } else {
        s
    }
}

/// `trim()`: the text without leading and trailing ASCII whitespace.
pub open spec fn spec_trim(s: Seq<u8>) -> Seq<u8> {
    trim_end(trim_start(s))
}

/// The pieces joined, with `delim` between each two.
pub open spec fn spec_join(parts: Seq<Seq<u8>>, delim: Seq<u8>) -> Seq<u8>
    decreases parts.len(),
{
    if parts.len() == 0 {
        Seq::empty()
    } else if parts.len() == 1 {
        parts[0]
    } else {
        parts[0] + delim + spec_join(parts.drop_first(), delim)
    }
}

/// The characters of a text, put back together, are the text.
pub proof fn lemma_char_chunks_join(s: Seq<u8>)
    ensures
        spec_join(char_chunks(s), Seq::empty()) == s,
    decreases s.len(),
{
    if s.len() > 0 {
        let w = if char_width(s[0]) <= s.len() {
            char_width(s[0])
        } else {
            s.len() as int
        };
        let rest = s.subrange(w, s.len() as int);
        lemma_char_chunks_join(rest);
        let cs = char_chunks(s);
        assert(cs == seq![s.subrange(0, w)] + char_chunks(rest));
        assert(cs.drop_first() =~= char_chunks(rest));
        if char_chunks(rest).len() == 0 {
            assert(rest.len() == 0) by {
                if rest.len() > 0 {
                    assert(char_chunks(rest).len() > 0);
                }
            }
            assert(s.subrange(0, w) =~= s);
        } else {
            assert(s.subrange(0, w) + Seq::<u8>::empty() + rest =~= s);
        }
    }
}

/// A split with a non-empty delimiter has at least one piece.
pub proof fn lemma_split_nonempty(s: Seq<u8>, delim: Seq<u8>)
    requires
        delim.len() > 0,
    ensures
        spec_split(s, delim).len() >= 1,
{
}

/// Joining the pieces of a split with the delimiter gives back the text that was split.
pub proof fn lemma_split_join(s: Seq<u8>, delim: Seq<u8>)
    ensures
        spec_join(spec_split(s, delim), delim) == s,
    decreases s.len(),
{
    if delim.len() == 0 {
        lemma_char_chunks_join(s);
        assert(delim =~= Seq::<u8>::empty());
    } else {
        let i = first_match(s, delim, 0);
        lemma_first_match(s, delim, 0);
        if i >= 0 {
            let rest = s.subrange(i + delim.len(), s.len() as int);
            lemma_split_join(rest, delim);
            lemma_split_nonempty(rest, delim);
            let parts = spec_split(s, delim);
            assert(parts == seq![s.subrange(0, i)] + spec_split(rest, delim));
            assert(parts.drop_first() =~= spec_split(rest, delim));
            assert(parts.len() >= 2);
            assert(parts[0] == s.subrange(0, i));
            assert(spec_join(parts, delim) == parts[0] + delim + spec_join(parts.drop_first(), delim));
            assert(s.subrange(i, i + delim.len()) == delim);
            assert(s.subrange(0, i) + delim + rest =~= s);
        }
    }
}

/// Replacing a text with itself changes nothing.
pub proof fn lemma_replace_same(s: Seq<u8>, pat: Seq<u8>)
    ensures
        spec_replace(s, pat, pat) == s,
    decreases s.len(),
{
    if pat.len() == 0 {
        assert(pat =~= Seq::<u8>::empty());
        lemma_join_after_empty(char_chunks(s));
        lemma_char_chunks_join(s);
        assert(pat + join_after(char_chunks(s), pat) =~= join_after(char_chunks(s), pat));
    } else {
        let i = first_match(s, pat, 0);
        lemma_first_match(s, pat, 0);
        if i >= 0 {
            let rest = s.subrange(i + pat.len(), s.len() as int);
            lemma_replace_same(rest, pat);
            assert(s.subrange(i, i + pat.len()) == pat);
            assert(s.subrange(0, i) + pat + rest =~= s);
        }
    }
}

/// Pieces followed each by nothing are the pieces joined with nothing between them.
pub proof fn lemma_join_after_empty(cs: Seq<Seq<u8>>)
    ensures
        join_after(cs, Seq::empty()) == spec_join(cs, Seq::empty()),
    decreases cs.len(),
{
    if cs.len() > 0 {
        lemma_join_after_empty(cs.drop_last());
        lemma_join_split_last(cs);
        assert(join_after(cs, Seq::empty()) =~= join_after(cs.drop_last(), Seq::empty()) + cs.last());
    }
}

/// Joining with nothing between: the pieces but the last, then the last.
proof fn lemma_join_split_last(cs: Seq<Seq<u8>>)
    requires
        cs.len() > 0,
    ensures
        spec_join(cs, Seq::empty()) == spec_join(cs.drop_last(), Seq::empty()) + cs.last(),
    decreases cs.len(),
{
    if cs.len() == 1 {
        assert(cs.drop_last() =~= Seq::<Seq<u8>>::empty());
        assert(Seq::<u8>::empty() + cs.last() =~= cs.last());
    } else {
        let t = cs.drop_first();
        lemma_join_split_last(t);
        assert(t.drop_last() =~= cs.drop_last().drop_first());
        assert(t.last() == cs.last());
        if cs.drop_last().len() == 1 {
            assert(t.drop_last().len() == 0);
            assert(cs[0] + Seq::<u8>::empty() + (Seq::<u8>::empty() + cs.last()) =~= cs.drop_last()[0] + cs.last());
        } else {
            assert(cs.drop_last()[0] == cs[0]);
            assert(cs[0] + Seq::<u8>::empty() + (spec_join(t.drop_last(), Seq::empty()) + cs.last())
                =~= (cs[0] + Seq::<u8>::empty() + spec_join(cs.drop_last().drop_first(), Seq::empty())) + cs.last());
        }
    }
}

/// `trim_start` leaves no leading whitespace and keeps a suffix.
proof fn lemma_trim_start(s: Seq<u8>)
    ensures
        trim_start(s).len() == 0 || !is_ascii_ws(trim_start(s)[0]),
        s.len() >= trim_start(s).len(),
        trim_start(s) == s.subrange(s.len() - trim_start(s).len(), s.len() as int),
    decreases s.len(),
{
    if s.len() > 0 && is_ascii_ws(s[0]) {
        lemma_trim_start(s.drop_first());
        assert(s.drop_first().subrange(s.drop_first().len() - trim_start(s).len(), s.drop_first().len() as int)
            =~= s.subrange(s.len() - trim_start(s).len(), s.len() as int));
    } else {
        assert(s.subrange(0, s.len() as int) =~= s);
    }
}

/// `trim_end` leaves no trailing whitespace and keeps a prefix.
proof fn lemma_trim_end(s: Seq<u8>)
    ensures
        trim_end(s).len() == 0 || !is_ascii_ws(trim_end(s).last()),
        s.len() >= trim_end(s).len(),
        trim_end(s) == s.subrange(0, trim_end(s).len() as int),
    decreases s.len(),
{
    if s.len() > 0 && is_ascii_ws(s.last()) {
        lemma_trim_end(s.drop_last());
        assert(s.drop_last().subrange(0, trim_end(s).len() as int) =~= s.subrange(0, trim_end(s).len() as int));
    } else {
        assert(s.subrange(0, s.len() as int) =~= s);
    }
}

/// Trimming a trimmed text changes nothing.
pub proof fn lemma_trim_idempotent(s: Seq<u8>)
    ensures
        spec_trim(spec_trim(s)) == spec_trim(s),
{
    let u = trim_start(s);
    let t = trim_end(u);
    lemma_trim_start(s);
    lemma_trim_end(u);
    if t.len() > 0 {
        assert(t[0] == u[0]);
    }
    assert(trim_start(t) == t);
    lemma_trim_end(t);
    if t.len() > 0 {
        assert(trim_end(t) == t);
    }
}

/// Remove leading and trailing ASCII whitespace.
pub fn trim_bytes(s: &[u8]) -> (r: Vec<u8>)
    ensures
        r@ == spec_trim(s@),
{
    let len = s.len();
    let mut lo: usize = 0;
    proof {
        assert(s@.subrange(0, len as int) =~= s@);
    }
    while lo < len && (s[lo] == 0x20 || s[lo] == 0x09 || s[lo] == 0x0A || s[lo] == 0x0C || s[lo]
        == 0x0D)
        invariant
            len == s@.len(),
            lo <= len,
            trim_start(s@) == trim_start(s@.subrange(lo as int, len as int)),
        decreases len - lo,
    {
        proof {
            let t = s@.subrange(lo as int, len as int);
            assert(t.drop_first() =~= s@.subrange(lo + 1, len as int));
        }
        lo = lo + 1;
    }
    let ghost ts = s@.subrange(lo as int, len as int);
    proof {
        assert(trim_start(s@) == ts);
        assert(ts.subrange(0, ts.len() as int) =~= ts);
    }
    let mut hi: usize = len;
    while hi > lo && (s[hi - 1] == 0x20 || s[hi - 1] == 0x09 || s[hi - 1] == 0x0A || s[hi - 1]
        == 0x0C || s[hi - 1] == 0x0D)
        invariant
            len == s@.len(),
            lo <= hi <= len,
            ts == s@.subrange(lo as int, len as int),
            trim_end(ts) == trim_end(s@.subrange(lo as int, hi as int)),
        decreases hi - lo,
    {
        proof {
            let t = s@.subrange(lo as int, hi as int);
            assert(t.drop_last() =~= s@.subrange(lo as int, hi - 1));
        }
        hi = hi - 1;
    }
    slice_to_vec(s, lo, hi)
}

/// The decimal digits of a natural number, most significant first.
pub open spec fn decimal_digits(n: nat) -> Seq<u8>
    decreases n,
{
    if n < 10 {
        seq![(48 + n) as u8]
    } else {
        decimal_digits(n / 10).push((48 + n % 10) as u8)
    }
}

/// The decimal text of an integer, as `{}` formats it: a `-` for negatives, then the digits.
pub open spec fn decimal_text(n: int) -> Seq<u8> {
    if n < 0 {
        seq![45u8] + decimal_digits((-n) as nat)
    } else {
        decimal_digits(n as nat)
    }
}

/// An ASCII decimal digit.
pub open spec fn is_digit(b: u8) -> bool {
    48 <= b <= 57
}

/// The number that a run of decimal digits reads as.
pub open spec fn digits_value(t: Seq<u8>) -> int
    decreases t.len(),
{
    if t.len() == 0 {
        0
    } else {
        digits_value(t.drop_last()) * 10 + (t.last() - 48)
    }
}

/// The integer that a decimal text reads as: an optional leading `-`, then digits.
pub open spec fn read_decimal(t: Seq<u8>) -> int {
    if t.len() > 0 && t[0] == 45 {
        -digits_value(t.subrange(1, t.len() as int))
    } else {
        digits_value(t)
    }
}

/// `10` to the power `k`.
pub open spec fn pow10(k: nat) -> nat
    decreases k,
{
    if k == 0 {
        1
    } else {
        10 * pow10((k - 1) as nat)
    }
}

/// The digits of `n` are digits, at least one, and read back as `n`; below `10^k` there
/// are at most `k` of them.
proof fn lemma_decimal_digits(n: nat, k: nat)
    ensures
        decimal_digits(n).len() >= 1,
        forall|i: int| 0 <= i < decimal_digits(n).len() ==> is_digit(#[trigger] decimal_digits(n)[i]),
        digits_value(decimal_digits(n)) == n,
        1 <= k && n < pow10(k) ==> decimal_digits(n).len() <= k,
    decreases n,
{
    if n >= 10 {
        let km: nat = if k >= 1 { (k - 1) as nat } else { 0 };
        lemma_decimal_digits(n / 10, km);
        let d = decimal_digits(n / 10);
        let t = d.push((48 + n % 10) as u8);
        assert(t.drop_last() =~= d);
        assert(t.last() == 48 + n % 10);
        assert(n == (n / 10) * 10 + n % 10);
        assert(digits_value(t) == digits_value(d) * 10 + (t.last() - 48));
        assert(decimal_digits(n) == t);
        assert(digits_value(t) == n);
        assert forall|i: int| 0 <= i < t.len() implies is_digit(#[trigger] t[i]) by {
            if i < d.len() {
                assert(t[i] == d[i]);
            }
        }
        if 1 <= k && n < pow10(k) {
            assert(pow10(k) == 10 * pow10(km));
            if k == 1 {
                assert(pow10(0) == 1);
            }
        }
    } else {
        let t = decimal_digits(n);
        assert(t.drop_last() =~= Seq::<u8>::empty());
        assert(t.last() == 48 + n);
        assert(digits_value(t.drop_last()) == 0);
        assert(digits_value(t) == n);
    }
}

/// The decimal text of an integer of 64 bits reads back as that integer: a `-` exactly
/// for a negative number, then only digits, at most twenty bytes in all.
pub proof fn lemma_decimal_text_reads_back(n: int)
    requires
        -0x8000_0000_0000_0000 <= n < 0x8000_0000_0000_0000,
    ensures
        read_decimal(decimal_text(n)) == n,
        decimal_text(n).len() <= 20,
        decimal_text(n).len() >= 1,
        (decimal_text(n)[0] == 45) == (n < 0),
        forall|i: int| (if n < 0 { 1int } else { 0int }) <= i < decimal_text(n).len() ==> is_digit(
            #[trigger] decimal_text(n)[i],
        ),
{
    reveal_with_fuel(pow10, 20);
    assert(pow10(19) == 10_000_000_000_000_000_000nat);
    let m: nat = if n < 0 { (-n) as nat } else { n as nat };
    lemma_decimal_digits(m, 19);
    let d = decimal_digits(m);
    if n < 0 {
        let t = seq![45u8] + d;
        assert(t.subrange(1, t.len() as int) =~= d);
        assert forall|i: int| 1 <= i < t.len() implies is_digit(#[trigger] t[i]) by {
            assert(t[i] == d[i - 1]);
        }
    } else {
        assert(is_digit(d[0]));
    }
}

/// Append the decimal digits of `m` to `out`.
fn push_digits(m: u64, out: &mut Vec<u8>)
    ensures
        final(out)@ == old(out)@ + decimal_digits(m as nat),
    decreases m,
{
    if m >= 10 {
        push_digits(m / 10, out);
    }
    let d = (m % 10) as u8;
    out.push(48 + d);
    proof {
        if m >= 10 {
            assert(decimal_digits(m as nat) == decimal_digits((m / 10) as nat).push(
                (48 + m % 10) as u8,
            ));
        }
        assert(final(out)@ =~= old(out)@ + decimal_digits(m as nat));
    }
}

/// The decimal text of `n`.
pub fn decimal_bytes(n: i64) -> (r: Vec<u8>)
    ensures
        r@ == decimal_text(n as int),
{
    let mut out: Vec<u8> = Vec::new();
    if n < 0 {
        out.push(45);
        let m: u64 = (-(n as i128)) as u64;
        push_digits(m, &mut out);
        proof {
            assert(out@ =~= seq![45u8] + decimal_digits((-n) as nat));
        }
    } else {
        push_digits(n as u64, &mut out);
        proof {
            assert(out@ =~= decimal_digits(n as nat));
        }
    }
    out
}

} // verus!
