use vstd::prelude::*;

verus! {

/// `s` with every occurrence of `pat`, scanning from the left, replaced by
/// `rep`.
pub open spec fn replace_all(s: Seq<char>, pat: Seq<char>, rep: Seq<char>) -> Seq<char>
    decreases s.len(),
{
    if pat.len() == 0 || s.len() < pat.len() {
        s
    } else if s.subrange(0, pat.len() as int) == pat {
        rep + replace_all(s.subrange(pat.len() as int, s.len() as int), pat, rep)
    } else {
        seq![s[0]] + replace_all(s.subrange(1, s.len() as int), pat, rep)
    }
}

/// Whether `pat` occurs in `s` at character position `i`.
fn occurs_at(s: &str, i: usize, pat: &str, n: usize, plen: usize) -> (r: bool)
    requires
        n == s@.len(),
        plen == pat@.len(),
        i + plen <= n,
    ensures
        r == (s@.subrange(i as int, i + plen) == pat@),
{
    let mut j: usize = 0;
    while j < plen
        invariant
            n == s@.len(),
            plen == pat@.len(),
            i + plen <= n,
            j <= plen,
            forall|k: int| 0 <= k < j ==> s@[i + k] == pat@[k],
        decreases plen - j,
    {
        if s.get_char(i + j) != pat.get_char(j) {
            assert(s@.subrange(i as int, i + plen)[j as int] != pat@[j as int]);
            return false;
        }
        j = j + 1;
    }
    assert(s@.subrange(i as int, i + plen) =~= pat@);
    true
}

/// `s` with every occurrence of `pat` replaced by `rep`.
pub fn replace_str(s: &str, pat: &str, rep: &str) -> (r: String)
    requires
        pat@.len() > 0,
    ensures
        r@ == replace_all(s@, pat@, rep@),
{
    let n = s.unicode_len();
    let plen = pat.unicode_len();
    let mut r = String::new();
    let mut i: usize = 0;
    assert(s@.subrange(0, n as int) =~= s@);
    assert(r@ + replace_all(s@, pat@, rep@) =~= replace_all(s@, pat@, rep@));
    while i < n
        invariant
            n == s@.len(),
            plen == pat@.len(),
            plen > 0,
            i <= n,
            r@ + replace_all(s@.subrange(i as int, n as int), pat@, rep@) == replace_all(s@, pat@, rep@),
        decreases n - i,
    {
        let ghost rest = s@.subrange(i as int, n as int);
        if plen > n - i {
            let tail = s.substring_char(i, n);
            r.append(tail);
            assert(replace_all(rest, pat@, rep@) == rest);
            assert(r@ =~= r@.subrange(0, r@.len() - rest.len()) + rest);
            proof {
                assert(s@.subrange(n as int, n as int) =~= Seq::<char>::empty());
                assert(replace_all(Seq::<char>::empty(), pat@, rep@) == Seq::<char>::empty());
            }
            i = n;
            assert(r@ + replace_all(s@.subrange(i as int, n as int), pat@, rep@) =~= replace_all(s@, pat@, rep@));
        } else if occurs_at(s, i, pat, n, plen) {
            let ghost before = r@;
            r.append(rep);
            proof {
                assert(rest.subrange(0, plen as int) =~= s@.subrange(i as int, i + plen));
                assert(rest.subrange(plen as int, rest.len() as int) =~= s@.subrange(i + plen, n as int));
                assert(r@ =~= before + rep@);
            }
            i = i + plen;
            assert(r@ + replace_all(s@.subrange(i as int, n as int), pat@, rep@) =~= replace_all(s@, pat@, rep@));
        } else {
            let ghost before = r@;
            let c = s.substring_char(i, i + 1);
            r.append(c);
            proof {
                assert(rest.subrange(0, plen as int) =~= s@.subrange(i as int, i + plen));
                assert(rest.subrange(1, rest.len() as int) =~= s@.subrange(i + 1, n as int));
                assert(c@ =~= seq![rest[0]]);
                assert(r@ =~= before + seq![rest[0]]);
            }
            i = i + 1;
            assert(r@ + replace_all(s@.subrange(i as int, n as int), pat@, rep@) =~= replace_all(s@, pat@, rep@));
        }
    }
    proof {
        assert(s@.subrange(n as int, n as int) =~= Seq::<char>::empty());
    }
    assert(r@ =~= r@ + replace_all(s@.subrange(n as int, n as int), pat@, rep@));
    r
}

} // verus!
