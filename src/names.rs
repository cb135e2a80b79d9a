use vstd::prelude::*;
use vstd::utf8::encode_utf8;
use vstd::utf8::encode_utf8_decode_utf8;

verus! {

// ---------------------------------------------------------------------------
// File name extensions
// ---------------------------------------------------------------------------

/// Position of the last `'.'` in `name`, or `-1` when it holds none.
pub open spec fn last_dot(name: Seq<char>) -> int
    decreases name.len(),
{
    if name.len() == 0 {
        -1
    } else if name.last() == '.' {
        name.len() - 1
    } else {
        last_dot(name.drop_last())
    }
}

pub proof fn lemma_last_dot_bounds(name: Seq<char>)
    ensures
        -1 <= last_dot(name) < name.len(),
        last_dot(name) >= 0 ==> name[last_dot(name)] == '.',
    decreases name.len(),
{
    if name.len() > 0 && name.last() != '.' {
        lemma_last_dot_bounds(name.drop_last());
    }
}

/// The extension of a file name, as for paths: the text after the last `'.'`,
/// unless that dot is the name's first character (a hidden file such as `.jpg`
/// has no extension) or there is no dot at all.
pub open spec fn extension(name: Seq<char>) -> Option<Seq<char>> {
    let d = last_dot(name);
    if d > 0 {
        Some(name.subrange(d + 1, name.len() as int))
    } else {
        None
    }
}

/// The recognised image extensions. The comparison is case-sensitive.
pub open spec fn is_image_extension(ext: Seq<char>) -> bool {
    ext == "jpg"@ || ext == "png"@ || ext == "webp"@
}

/// Whether a file name carries one of the recognised image extensions.
pub open spec fn has_image_extension(name: Seq<char>) -> bool {
    match extension(name) {
        Some(e) => is_image_extension(e),
        None => false,
    }
}

/// The text after the last `'.'` of a name, wherever that dot stands (a
/// leading one included); `None` when the name holds no dot.
pub open spec fn suffix_after_last_dot(name: Seq<char>) -> Option<Seq<char>> {
    let d = last_dot(name);
    if d >= 0 {
        Some(name.subrange(d + 1, name.len() as int))
    } else {
        None
    }
}

/// The position of the last `'.'` in `name`, if it holds one.
pub fn find_last_dot(name: &str) -> (r: Option<usize>)
    ensures
        match r {
            Some(d) => d == last_dot(name@) && d < name@.len(),
            None => last_dot(name@) == -1,
        },
        name@.len() <= usize::MAX,
{
    proof {
        lemma_last_dot_bounds(name@);
    }
    let n = name.unicode_len();
    let mut i: usize = n;
    assert(name@.subrange(0, n as int) =~= name@);
    while i > 0
        invariant
            i <= n,
            n == name@.len(),
            last_dot(name@) == last_dot(name@.subrange(0, i as int)),
        decreases i,
    {
        if name.get_char(i - 1) == '.' {
            return Some(i - 1);
        }
        assert(name@.subrange(0, i as int).drop_last() =~= name@.subrange(0, i - 1));
        i = i - 1;
    }
    None
}

/// Where the extension of `name` starts: one past its last dot, if that dot
/// marks an extension.
pub fn extension_start(name: &str) -> (r: Option<usize>)
    ensures
        match r {
            Some(k) => last_dot(name@) > 0 && k == last_dot(name@) + 1 && k <= name@.len(),
            None => last_dot(name@) <= 0,
        },
{
    match find_last_dot(name) {
        Some(d) => if d > 0 {
            Some(d + 1)
        } else {
            None
        },
        None => None,
    }
}

/// Where the text after the last dot of `name` starts, if it holds a dot.
pub fn suffix_start(name: &str) -> (r: Option<usize>)
    ensures
        match r {
            Some(k) => last_dot(name@) >= 0 && k == last_dot(name@) + 1 && k <= name@.len(),
            None => last_dot(name@) == -1,
        },
{
    match find_last_dot(name) {
        Some(d) => Some(d + 1),
        None => None,
    }
}

/// Whether the characters of `name` from `start` on are exactly those of `lit`.
pub fn tail_equals(name: &str, start: usize, lit: &str) -> (r: bool)
    requires
        start <= name@.len(),
    ensures
        r == (name@.subrange(start as int, name@.len() as int) == lit@),
{
    let n = name.unicode_len();
    let m = lit.unicode_len();
    if n - start != m {
        return false;
    }
    let mut j: usize = 0;
    while j < m
        invariant
            j <= m,
            m == lit@.len(),
            n == name@.len(),
            start <= n,
            n - start == m,
            forall|k: int| 0 <= k < j ==> name@[start + k] == lit@[k],
        decreases m - j,
    {
        if name.get_char(start + j) != lit.get_char(j) {
            assert(name@.subrange(start as int, n as int)[j as int] != lit@[j as int]);
            return false;
        }
        j += 1;
    }
    assert(name@.subrange(start as int, n as int) =~= lit@);
    true
}

/// Whether `a` and `b` hold the same characters.
pub fn str_equals(a: &str, b: &str) -> (r: bool)
    ensures
        r == (a@ == b@),
{
    assert(a@.subrange(0, a@.len() as int) =~= a@);
    tail_equals(a, 0, b)
}

/// Whether `name` carries one of the recognised image extensions
/// (`jpg`, `png`, `webp`, case-sensitive).
pub fn is_image_name(name: &str) -> (r: bool)
    ensures
        r == has_image_extension(name@),
{
    match extension_start(name) {
        Some(k) => tail_equals(name, k, "jpg") || tail_equals(name, k, "png") || tail_equals(
            name,
            k,
            "webp",
        ),
        None => false,
    }
}

// ---------------------------------------------------------------------------
// Order of names
// ---------------------------------------------------------------------------

/// Lexicographic order on byte strings: `a` sorts strictly before `b`.
pub open spec fn bytes_lt(a: Seq<u8>, b: Seq<u8>) -> bool
    decreases a.len(),
{
    if a.len() == 0 {
        b.len() > 0
    } else if b.len() == 0 {
        false
    } else if a[0] != b[0] {
        a[0] < b[0]
    } else {
        bytes_lt(a.drop_first(), b.drop_first())
    }
}

/// The order of file names: lexicographic on their UTF-8 bytes, which is
/// also the order of their code points.
pub open spec fn name_lt(a: Seq<char>, b: Seq<char>) -> bool {
    bytes_lt(encode_utf8(a), encode_utf8(b))
}

pub proof fn lemma_bytes_lt_irreflexive(a: Seq<u8>)
    ensures
        !bytes_lt(a, a),
    decreases a.len(),
{
    if a.len() > 0 {
        lemma_bytes_lt_irreflexive(a.drop_first());
    }
}

pub proof fn lemma_bytes_lt_total(a: Seq<u8>, b: Seq<u8>)
    requires
        a != b,
    ensures
        bytes_lt(a, b) || bytes_lt(b, a),
    decreases a.len(),
{
    if a.len() > 0 && b.len() > 0 && a[0] == b[0] {
        if a.drop_first() == b.drop_first() {
            assert(a =~= seq![a[0]] + a.drop_first());
            assert(b =~= seq![b[0]] + b.drop_first());
        }
        lemma_bytes_lt_total(a.drop_first(), b.drop_first());
    } else if a.len() == 0 && b.len() == 0 {
        assert(a =~= b);
    }
}

pub proof fn lemma_bytes_lt_transitive(a: Seq<u8>, b: Seq<u8>, c: Seq<u8>)
    requires
        bytes_lt(a, b),
        bytes_lt(b, c),
    ensures
        bytes_lt(a, c),
    decreases a.len(),
{
    if a.len() > 0 && b.len() > 0 && c.len() > 0 && a[0] == b[0] && b[0] == c[0] {
        lemma_bytes_lt_transitive(a.drop_first(), b.drop_first(), c.drop_first());
    }
}

pub proof fn lemma_name_lt_irreflexive(a: Seq<char>)
    ensures
        !name_lt(a, a),
{
    lemma_bytes_lt_irreflexive(encode_utf8(a));
}

/// Two distinct names are ordered one way or the other.
pub proof fn lemma_name_lt_total(a: Seq<char>, b: Seq<char>)
    requires
        a != b,
    ensures
        name_lt(a, b) || name_lt(b, a),
{
    encode_utf8_decode_utf8(a);
    encode_utf8_decode_utf8(b);
    lemma_bytes_lt_total(encode_utf8(a), encode_utf8(b));
}

pub proof fn lemma_name_lt_transitive(a: Seq<char>, b: Seq<char>, c: Seq<char>)
    requires
        name_lt(a, b),
        name_lt(b, c),
    ensures
        name_lt(a, c),
{
    lemma_bytes_lt_transitive(encode_utf8(a), encode_utf8(b), encode_utf8(c));
}

/// Whether name `a` sorts strictly before name `b`.
pub fn name_less(a: &str, b: &str) -> (r: bool)
    ensures
        r == name_lt(a@, b@),
{
    let x = a.as_bytes();
    let y = b.as_bytes();
    let ghost xs = x@;
    let ghost ys = y@;
    assert(xs.subrange(0, xs.len() as int) =~= xs);
    assert(ys.subrange(0, ys.len() as int) =~= ys);
    let mut i: usize = 0;
    while i < x.len() && i < y.len() && x[i] == y[i]
        invariant
            x@ == xs,
            y@ == ys,
            xs == encode_utf8(a@),
            ys == encode_utf8(b@),
            i <= xs.len(),
            i <= ys.len(),
            name_lt(a@, b@) == bytes_lt(
                xs.subrange(i as int, xs.len() as int),
                ys.subrange(i as int, ys.len() as int),
            ),
        decreases xs.len() - i,
    {
        assert(xs.subrange(i as int, xs.len() as int).drop_first() =~= xs.subrange(
            i + 1,
            xs.len() as int,
        ));
        assert(ys.subrange(i as int, ys.len() as int).drop_first() =~= ys.subrange(
            i + 1,
            ys.len() as int,
        ));
        i += 1;
    }
    if i == y.len() {
        false
    } else if i == x.len() {
        true
    } else {
        x[i] < y[i]
    }
}

// ---------------------------------------------------------------------------
// Plain base names
// ---------------------------------------------------------------------------

/// A requested file name that may be joined to a directory safely: not empty,
/// not `.` or `..`, and free of path separators (`/` and `\`).
pub open spec fn is_plain_basename(name: Seq<char>) -> bool {
    &&& name.len() > 0
    &&& name != "."@
    &&& name != ".."@
    &&& forall|i: int| 0 <= i < name.len() ==> name[i] != '/' && name[i] != '\\'
}

/// Whether `name` is a plain base name.
pub fn is_plain_basename_exec(name: &str) -> (r: bool)
    ensures
        r == is_plain_basename(name@),
{
    let n = name.unicode_len();
    if n == 0 || str_equals(name, ".") || str_equals(name, "..") {
        return false;
    }
    let mut i: usize = 0;
    while i < n
        invariant
            i <= n,
            n == name@.len(),
            forall|k: int| 0 <= k < i ==> name@[k] != '/' && name@[k] != '\\',
        decreases n - i,
    {
        let c = name.get_char(i);
        if c == '/' || c == '\\' {
            return false;
        }
        i += 1;
    }
    true
}

} // verus!
