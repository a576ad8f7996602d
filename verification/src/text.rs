use vstd::prelude::*;

verus! {

pub open spec fn spec_starts_with(s: Seq<char>, p: Seq<char>) -> bool {
    s.len() >= p.len() && s.subrange(0, p.len() as int) == p
}

pub open spec fn spec_ends_with(s: Seq<char>, p: Seq<char>) -> bool {
    s.len() >= p.len() && s.subrange(s.len() - p.len(), s.len() as int) == p
}

/// Lexicographic order on character sequences by code point, a prefix
/// ordered before its extensions; the order `str` comparison gives.
pub open spec fn lex_le(a: Seq<char>, b: Seq<char>) -> bool
    decreases a.len(),
{
    if a.len() == 0 {
        true
    } else if b.len() == 0 {
        false
    } else if a[0] != b[0] {
        (a[0] as u32) < (b[0] as u32)
    } else {
        lex_le(a.skip(1), b.skip(1))
    }
}

/// Index of the last `.` that does not stand first, or `-1`.
pub open spec fn spec_last_dot(s: Seq<char>) -> int
    decreases s.len(),
{
    if s.len() <= 1 {
        -1
    } else if s.last() == '.' {
        s.len() - 1
    } else {
        spec_last_dot(s.drop_last())
    }
}

/// The name without its extension: everything before the last `.`, except
/// that a lone leading `.` marks no extension.
pub open spec fn spec_file_stem(s: Seq<char>) -> Seq<char> {
    if spec_last_dot(s) >= 1 {
        s.subrange(0, spec_last_dot(s))
    } else {
        s
    }
}

/// True when the two string slices hold the same characters.
pub fn str_eq_str(a: &str, b: &str) -> (r: bool)
    ensures
        r == (a@ == b@),
{
    let n = a.unicode_len();
    if n != b.unicode_len() {
        return false;
    }
    let mut i: usize = 0;
    loop
        invariant
            n == a@.len(),
            n == b@.len(),
            i <= n,
            forall|k: int| 0 <= k < i ==> a@[k] == b@[k],
        ensures
            i <= n,
            forall|k: int| 0 <= k < i ==> a@[k] == b@[k],
            i < n ==> a@[i as int] != b@[i as int],
        decreases n - i,
    {
        if i == n {
            break ;
        }
        if a.get_char(i) != b.get_char(i) {
            break ;
        }
        i = i + 1;
    }
    if i == n {
        proof {
            assert(a@ =~= b@);
        }
        true
    } else {
        false
    }
}

/// True when `s` begins with `p`.
pub fn str_starts_with(s: &str, p: &str) -> (r: bool)
    ensures
        r == spec_starts_with(s@, p@),
{
    let n = s.unicode_len();
    let m = p.unicode_len();
    if n < m {
        return false;
    }
    let mut i: usize = 0;
    loop
        invariant
            n == s@.len(),
            m == p@.len(),
            m <= n,
            i <= m,
            forall|k: int| 0 <= k < i ==> s@[k] == p@[k],
        ensures
            i <= m,
            forall|k: int| 0 <= k < i ==> s@[k] == p@[k],
            i < m ==> s@[i as int] != p@[i as int],
        decreases m - i,
    {
        if i == m {
            break ;
        }
        if s.get_char(i) != p.get_char(i) {
            break ;
        }
        i = i + 1;
    }
    if i == m {
        proof {
            assert(s@.subrange(0, m as int) =~= p@);
        }
        true
    } else {
        proof {
            assert(s@.subrange(0, m as int) != p@) by {
                if s@.subrange(0, m as int) == p@ {
                    assert(s@[i as int] == s@.subrange(0, m as int)[i as int]);
                }
            }
        }
        false
    }
}

/// True when `s` ends with `p`.
pub fn str_ends_with(s: &str, p: &str) -> (r: bool)
    ensures
        r == spec_ends_with(s@, p@),
{
    let n = s.unicode_len();
    let m = p.unicode_len();
    if n < m {
        return false;
    }
    let off = n - m;
    let mut i: usize = 0;
    loop
        invariant
            n == s@.len(),
            m == p@.len(),
            off == n - m,
            i <= m,
            forall|k: int| 0 <= k < i ==> s@[off + k] == p@[k],
        ensures
            i <= m,
            forall|k: int| 0 <= k < i ==> s@[off + k] == p@[k],
            i < m ==> s@[off + i] != p@[i as int],
        decreases m - i,
    {
        if i == m {
            break ;
        }
        if s.get_char(off + i) != p.get_char(i) {
            break ;
        }
        i = i + 1;
    }
    if i == m {
        proof {
            assert(s@.subrange(off as int, n as int) =~= p@);
        }
        true
    } else {
        proof {
            assert(s@.subrange(off as int, n as int) != p@) by {
                if s@.subrange(off as int, n as int) == p@ {
                    assert(s@[off + i] == s@.subrange(off as int, n as int)[i as int]);
                }
            }
        }
        false
    }
}

proof fn lemma_lex_le_step(a: Seq<char>, b: Seq<char>, i: int)
    requires
        0 <= i < a.len(),
        i < b.len(),
        forall|k: int| 0 <= k < i ==> a[k] == b[k],
    ensures
        lex_le(a, b) == if a[i] != b[i] {
            (a[i] as u32) < (b[i] as u32)
        } else {
            lex_le(a.skip(i + 1), b.skip(i + 1))
        },
    decreases i,
{
    if i == 0 {
        assert(a.skip(1) =~= a.skip(i + 1));
        assert(b.skip(1) =~= b.skip(i + 1));
    } else {
        assert(a.skip(1)[i - 1] == a[i]);
        assert(b.skip(1)[i - 1] == b[i]);
        lemma_lex_le_step(a.skip(1), b.skip(1), i - 1);
        assert(a.skip(1).skip(i) =~= a.skip(i + 1));
        assert(b.skip(1).skip(i) =~= b.skip(i + 1));
    }
}

proof fn lemma_lex_le_of_prefix(a: Seq<char>, b: Seq<char>, i: int)
    requires
        0 <= i <= a.len(),
        i <= b.len(),
        forall|k: int| 0 <= k < i ==> a[k] == b[k],
    ensures
        lex_le(a, b) == (if i < a.len() && i < b.len() {
            if a[i] != b[i] {
                (a[i] as u32) < (b[i] as u32)
            } else {
                lex_le(a.skip(i + 1), b.skip(i + 1))
            }
        } else {
            a.len() <= b.len()
        }),
    decreases i,
{
    if i < a.len() && i < b.len() {
        lemma_lex_le_step(a, b, i);
    } else if i == 0 {
    } else {
        lemma_lex_le_step(a, b, i - 1);
        if a.len() <= i && b.len() <= i {
            assert(a =~= b);
            lemma_lex_le_refl(a);
        } else if a.len() <= i {
            assert(a.skip(i) =~= Seq::<char>::empty());
            assert(lex_le(a.skip(i), b.skip(i)));
        } else {
            assert(b.skip(i) =~= Seq::<char>::empty());
            assert(a.skip(i).len() > 0);
            assert(!lex_le(a.skip(i), b.skip(i)));
        }
    }
}

proof fn lemma_lex_le_refl(a: Seq<char>)
    ensures
        lex_le(a, a),
    decreases a.len(),
{
    if a.len() > 0 {
        lemma_lex_le_refl(a.skip(1));
    }
}

/// Decides `lex_le` on two string slices.
pub fn str_lex_le(a: &str, b: &str) -> (r: bool)
    ensures
        r == lex_le(a@, b@),
{
    let n = a.unicode_len();
    let m = b.unicode_len();
    let mut i: usize = 0;
    loop
        invariant
            n == a@.len(),
            m == b@.len(),
            i <= n,
            i <= m,
            forall|k: int| 0 <= k < i ==> a@[k] == b@[k],
        ensures
            i <= n,
            i <= m,
            forall|k: int| 0 <= k < i ==> a@[k] == b@[k],
            i < n && i < m ==> a@[i as int] != b@[i as int],
        decreases n - i,
    {
        if i == n || i == m {
            break ;
        }
        if a.get_char(i) != b.get_char(i) {
            break ;
        }
        i = i + 1;
    }
    proof {
        lemma_lex_le_of_prefix(a@, b@, i as int);
    }
    if i < n && i < m {
        (a.get_char(i) as u32) < (b.get_char(i) as u32)
    } else {
        n <= m
    }
}

/// The name without its extension, as `spec_file_stem` says.
pub fn file_stem(name: &str) -> (r: String)
    ensures
        r@ == spec_file_stem(name@),
{
    let n = name.unicode_len();
    let mut j: usize = n;
    loop
        invariant
            n == name@.len(),
            j <= n,
            forall|k: int| j <= k < n ==> name@[k] != '.',
        ensures
            j <= n,
            forall|k: int| j <= k < n ==> name@[k] != '.',
            j > 0 ==> name@[j - 1] == '.',
        decreases j,
    {
        if j == 0 {
            break ;
        }
        if name.get_char(j - 1) == '.' {
            break ;
        }
        j = j - 1;
    }
    proof {
        lemma_last_dot_agrees(name@, j as int);
    }
    if j >= 2 {
        name.substring_char(0, j - 1).to_owned()
    } else {
        name.to_owned()
    }
}

proof fn lemma_last_dot_agrees(s: Seq<char>, j: int)
    requires
        0 <= j <= s.len(),
        forall|k: int| j <= k < s.len() ==> s[k] != '.',
        j > 0 ==> s[j - 1] == '.',
    ensures
        j >= 2 ==> spec_last_dot(s) == j - 1,
        j < 2 ==> spec_last_dot(s) < 1,
    decreases s.len(),
{
    if s.len() <= 1 {
    } else if s.last() == '.' {
    } else {
        lemma_last_dot_agrees(s.drop_last(), if j == s.len() {
            j - 1
        } else {
            j
        });
    }
}

/// Joins a directory path and a name with a single separator.
pub fn join_path(base: &str, name: &str) -> (r: String)
    ensures
        r@ == base@ + seq!['/'] + name@,
{
    let mut out = base.to_owned();
    out.append("/");
    out.append(name);
    proof {
        reveal_strlit("/");
        assert(out@ =~= base@ + seq!['/'] + name@);
    }
    out
}

} // verus!
