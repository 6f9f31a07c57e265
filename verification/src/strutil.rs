//! Verified string utilities: decimal rendering, mount-path derivation,
//! file-name extraction and lexicographic comparison.

use vstd::prelude::*;
use vstd::string::*;

verus! {

/// The character for one decimal digit.
pub open spec fn digit_char(d: nat) -> char {
    if d == 0 {
        '0'
    } else if d == 1 {
        '1'
    } else if d == 2 {
        '2'
    } else if d == 3 {
        '3'
    } else if d == 4 {
        '4'
    } else if d == 5 {
        '5'
    } else if d == 6 {
        '6'
    } else if d == 7 {
        '7'
    } else if d == 8 {
        '8'
    } else {
        '9'
    }
}

/// The decimal representation of `n`, most significant digit first.
pub open spec fn dec_rep(n: nat) -> Seq<char>
    decreases n,
{
    if n < 10 {
        seq![digit_char(n)]
    } else {
        dec_rep(n / 10).push(digit_char(n % 10))
    }
}

/// No character of `s` is a path separator.
pub open spec fn no_slash(s: Seq<char>) -> bool {
    forall|i: int| 0 <= i < s.len() ==> s[i] != '/'
}

pub proof fn lemma_dec_rep_no_slash(n: nat)
    ensures
        no_slash(dec_rep(n)),
        dec_rep(n).len() >= 1,
    decreases n,
{
    if n >= 10 {
        lemma_dec_rep_no_slash(n / 10);
    }
}

fn digit_str(d: u64) -> (r: &'static str)
    requires
        d < 10,
    ensures
        r@ == seq![digit_char(d as nat)],
{
    proof {
        reveal_strlit("0");
        reveal_strlit("1");
        reveal_strlit("2");
        reveal_strlit("3");
        reveal_strlit("4");
        reveal_strlit("5");
        reveal_strlit("6");
        reveal_strlit("7");
        reveal_strlit("8");
        reveal_strlit("9");
    }
    if d == 0 {
        proof {
            assert("0"@ =~= seq![digit_char(d as nat)]);
        }
        "0"
    } else if d == 1 {
        proof {
            assert("1"@ =~= seq![digit_char(d as nat)]);
        }
        "1"
    } else if d == 2 {
        proof {
            assert("2"@ =~= seq![digit_char(d as nat)]);
        }
        "2"
    } else if d == 3 {
        proof {
            assert("3"@ =~= seq![digit_char(d as nat)]);
        }
        "3"
    } else if d == 4 {
        proof {
            assert("4"@ =~= seq![digit_char(d as nat)]);
        }
        "4"
    } else if d == 5 {
        proof {
            assert("5"@ =~= seq![digit_char(d as nat)]);
        }
        "5"
    } else if d == 6 {
        proof {
            assert("6"@ =~= seq![digit_char(d as nat)]);
        }
        "6"
    } else if d == 7 {
        proof {
            assert("7"@ =~= seq![digit_char(d as nat)]);
        }
        "7"
    } else if d == 8 {
        proof {
            assert("8"@ =~= seq![digit_char(d as nat)]);
        }
        "8"
    } else {
        proof {
            assert("9"@ =~= seq![digit_char(d as nat)]);
        }
        "9"
    }
}

/// Renders `n` in decimal.
pub fn u64_to_dec(n: u64) -> (r: String)
    ensures
        r@ == dec_rep(n as nat),
    decreases n,
{
    if n < 10 {
        String::from_str(digit_str(n))
    } else {
        proof {
            assert(n / 10 < n) by (nonlinear_arith)
                requires
                    n >= 10,
            ;
        }
        let mut s = u64_to_dec(n / 10);
        s.append(digit_str(n % 10));
        proof {
            assert(s@ =~= dec_rep(n as nat));
        }
        s
    }
}

/// The name of partition `k` of a drive.
pub open spec fn part_name_spec(k: nat) -> Seq<char> {
    "part"@ + dec_rep(k)
}

/// The deterministic local mount path for partition `k` of the volume
/// named `name`.
pub open spec fn mount_path_spec(name: Seq<char>, k: nat) -> Seq<char> {
    "/mnt/"@ + name + "/"@ + part_name_spec(k)
}

/// The ordered mount paths for a volume with `n` partitions, one path per
/// partition, numbered from 1.
pub open spec fn mount_paths_spec(name: Seq<char>, n: nat) -> Seq<Seq<char>> {
    Seq::new(n, |i: int| mount_path_spec(name, (i + 1) as nat))
}

/// Renders the name of partition `k`.
pub fn part_name(k: u64) -> (r: String)
    ensures
        r@ == part_name_spec(k as nat),
{
    let mut s = String::from_str("part");
    let d = u64_to_dec(k);
    s.append(d.as_str());
    s
}

/// Renders the mount path for partition `k` of the volume named `name`.
pub fn mount_path(name: &str, k: u64) -> (r: String)
    ensures
        r@ == mount_path_spec(name@, k as nat),
{
    let mut s = String::from_str("/mnt/");
    s.append(name);
    s.append("/");
    let p = part_name(k);
    s.append(p.as_str());
    proof {
        assert(s@ =~= mount_path_spec(name@, k as nat));
    }
    s
}

/// Derives the ordered mount paths for a volume with `n_parts` partitions.
pub fn derive_mount_paths(name: &str, n_parts: usize) -> (r: Vec<String>)
    ensures
        r@.map_values(|p: String| p@) == mount_paths_spec(name@, n_parts as nat),
{
    let mut v: Vec<String> = Vec::new();
    let mut k: usize = 0;
    while k < n_parts
        invariant
            k <= n_parts,
            v@.len() == k,
            forall|i: int| 0 <= i < k ==> v@[i]@ == mount_path_spec(name@, (i + 1) as nat),
        decreases n_parts - k,
    {
        let p = mount_path(name, (k as u64) + 1);
        v.push(p);
        k = k + 1;
    }
    proof {
        assert(v@.map_values(|p: String| p@) =~= mount_paths_spec(name@, n_parts as nat));
    }
    v
}

/// The suffix of `s` after its last path separator; `s` itself when it
/// holds none.
pub open spec fn after_last_slash(s: Seq<char>) -> Seq<char>
    decreases s.len(),
{
    if s.len() == 0 {
        s
    } else if s[s.len() - 1] == '/' {
        Seq::empty()
    } else {
        after_last_slash(s.drop_last()).push(s[s.len() - 1])
    }
}

/// Appending `/` and a separator-free suffix pins the file name to that
/// suffix, whatever came before.
pub proof fn lemma_after_last_slash_concat(s: Seq<char>, t: Seq<char>)
    requires
        no_slash(t),
    ensures
        after_last_slash(s + seq!['/'] + t) == t,
    decreases t.len(),
{
    let u = s + seq!['/'] + t;
    if t.len() == 0 {
        assert(u =~= s + seq!['/']);
        assert(u[u.len() - 1] == '/');
        assert(after_last_slash(u) =~= t);
    } else {
        lemma_after_last_slash_concat(s, t.drop_last());
        assert(u.drop_last() =~= s + seq!['/'] + t.drop_last());
        assert(u[u.len() - 1] == t[t.len() - 1]);
        assert(after_last_slash(u) =~= t);
    }
}

/// Where everything from position `i` on is separator-free and position
/// `i` starts right after a separator (or at the start of `s`), the file
/// name is the suffix from `i`.
pub proof fn lemma_after_last_slash_tail(s: Seq<char>, i: int)
    requires
        0 <= i <= s.len(),
        forall|j: int| i <= j < s.len() ==> s[j] != '/',
        i == 0 || s[i - 1] == '/',
    ensures
        after_last_slash(s) == s.subrange(i, s.len() as int),
    decreases s.len(),
{
    if s.len() == i {
        if i == 0 {
            assert(after_last_slash(s) =~= s.subrange(i, s.len() as int));
        } else {
            assert(s[s.len() - 1] == '/');
            assert(after_last_slash(s) =~= s.subrange(i, s.len() as int));
        }
    } else {
        assert(s[s.len() - 1] != '/');
        lemma_after_last_slash_tail(s.drop_last(), i);
        assert(after_last_slash(s.drop_last()) == s.drop_last().subrange(
            i,
            s.drop_last().len() as int,
        ));
        assert(after_last_slash(s) =~= s.subrange(i, s.len() as int));
    }
}

/// Extracts the file name of a path: the part after the last `/`.
pub fn file_name(s: &str) -> (r: String)
    ensures
        r@ == after_last_slash(s@),
{
    let n = s.unicode_len();
    let mut i: usize = n;
    loop
        invariant
            i <= n,
            n == s@.len(),
            forall|j: int| i <= j < n ==> s@[j] != '/',
        ensures
            i <= n,
            forall|j: int| i <= j < n ==> s@[j] != '/',
            i == 0 || s@[i - 1] == '/',
        decreases i,
    {
        if i == 0 {
            break ;
        }
        if s.get_char(i - 1) == '/' {
            break ;
        }
        i = i - 1;
    }
    let tail = s.substring_char(i, n);
    proof {
        lemma_after_last_slash_tail(s@, i as int);
    }
    String::from_str(tail)
}

/// Law: name derivation and name extraction agree — the file name of
/// the mount path derived for partition `k` is exactly the partition's
/// name, whatever the volume is called. The share actions computed from
/// a drive's mount paths therefore name its partitions.
pub proof fn lemma_mount_path_file_name(name: Seq<char>, k: nat)
    ensures
        after_last_slash(mount_path_spec(name, k)) == part_name_spec(k),
{
    reveal_strlit("/");
    reveal_strlit("part");
    lemma_dec_rep_no_slash(k);
    assert(no_slash(part_name_spec(k))) by {
        assert(forall|i: int| 0 <= i < 4 ==> "part"@[i] != '/');
        assert forall|i: int| 0 <= i < part_name_spec(k).len() implies part_name_spec(k)[i]
            != '/' by {
            if i < 4 {
                assert(part_name_spec(k)[i] == "part"@[i]);
            } else {
                assert(part_name_spec(k)[i] == dec_rep(k)[i - 4]);
            }
        }
    }
    lemma_after_last_slash_concat("/mnt/"@ + name, part_name_spec(k));
    assert(("/mnt/"@ + name) + seq!['/'] + part_name_spec(k) =~= mount_path_spec(name, k));
}

/// Lexicographic order on character sequences, by code point.
pub open spec fn lex_le(a: Seq<char>, b: Seq<char>) -> bool
    decreases a.len(),
{
    if a.len() == 0 {
        true
    } else if b.len() == 0 {
        false
    } else if a[0] == b[0] {
        lex_le(a.skip(1), b.skip(1))
    } else {
        a[0] < b[0]
    }
}

/// The lexicographic order is total: of any two sequences, one is less
/// than or equal to the other.
pub proof fn lemma_lex_total(a: Seq<char>, b: Seq<char>)
    ensures
        lex_le(a, b) || lex_le(b, a),
    decreases a.len(),
{
    if a.len() > 0 && b.len() > 0 && a[0] == b[0] {
        lemma_lex_total(a.skip(1), b.skip(1));
    }
}

/// Compares two strings in the lexicographic order.
pub fn str_lex_le(a: &str, b: &str) -> (r: bool)
    ensures
        r == lex_le(a@, b@),
{
    let na = a.unicode_len();
    let nb = b.unicode_len();
    let mut i: usize = 0;
    proof {
        assert(a@.skip(0) =~= a@);
        assert(b@.skip(0) =~= b@);
    }
    loop
        invariant
            i <= na,
            i <= nb,
            na == a@.len(),
            nb == b@.len(),
            lex_le(a@, b@) == lex_le(a@.skip(i as int), b@.skip(i as int)),
        decreases na - i,
    {
        if i >= na {
            return true;
        }
        if i >= nb {
            return false;
        }
        let ca = a.get_char(i);
        let cb = b.get_char(i);
        if ca != cb {
            return ca < cb;
        }
        i = i + 1;
        proof {
            assert(a@.skip(i - 1).skip(1) =~= a@.skip(i as int));
            assert(b@.skip(i - 1).skip(1) =~= b@.skip(i as int));
        }
    }
}

} // verus!
