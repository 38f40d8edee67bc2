//! The credential record store: an ordered collection of encrypted records,
//! mirroring the durable on-disk store. Appends keep insertion order; search
//! never reorders; deletion removes exactly the given positions; a passphrase
//! rotation replaces the whole collection or nothing at all.

use vstd::prelude::*;

use crate::crypto::{decrypt, decrypt_spec, encrypt, encrypts};
use crate::errors::VaultError;
use crate::records::{Credentials, CredentialsView, EncryptedCredentials, EncryptedCredentialsView};

verus! {

/// Whether `needle` occurs as a contiguous run of characters in `hay`.
pub open spec fn contains_sub(hay: Seq<char>, needle: Seq<char>) -> bool {
    exists|k: int|
        0 <= k && k + needle.len() <= hay.len() && #[trigger] hay.subrange(k, k + needle.len())
            == needle
}

/// Whether a stored record matches a search pattern: a substring of its
/// service or of its username, both of which are plaintext at rest.
pub open spec fn is_match(e: EncryptedCredentialsView, pat: Seq<char>) -> bool {
    contains_sub(e.service, pat) || contains_sub(e.username, pat)
}

/// The record handed out when no passphrase was supplied: the password is
/// withheld.
pub open spec fn masked(e: EncryptedCredentialsView) -> CredentialsView {
    CredentialsView { service: e.service, username: e.username, password: Seq::empty() }
}

/// What a search returns: the matching records in storage order, decrypted
/// when a passphrase was supplied and masked otherwise; the first decryption
/// failure, if any, is the result.
pub open spec fn grep_spec(
    s: Seq<EncryptedCredentialsView>,
    pwd: Option<Seq<char>>,
    pat: Seq<char>,
) -> Result<Seq<CredentialsView>, VaultError>
    decreases s.len(),
{
    if s.len() == 0 {
        Ok(Seq::empty())
    } else {
        match grep_spec(s.drop_last(), pwd, pat) {
            Err(e) => Err(e),
            Ok(rs) => {
                if !is_match(s.last(), pat) {
                    Ok(rs)
                } else {
                    match pwd {
                        None => Ok(rs.push(masked(s.last()))),
                        Some(p) => match decrypt_spec(s.last(), p) {
                            Err(e) => Err(e),
                            Ok(c) => Ok(rs.push(c)),
                        },
                    }
                }
            },
        }
    }
}

/// Every record of `s` decrypted under `p`, in order, or the first failure.
pub open spec fn dec_all(s: Seq<EncryptedCredentialsView>, p: Seq<char>) -> Result<
    Seq<CredentialsView>,
    VaultError,
>
    decreases s.len(),
{
    if s.len() == 0 {
        Ok(Seq::empty())
    } else {
        match dec_all(s.drop_last(), p) {
            Err(e) => Err(e),
            Ok(cs) => match decrypt_spec(s.last(), p) {
                Err(e) => Err(e),
                Ok(c) => Ok(cs.push(c)),
            },
        }
    }
}

/// Whether `out` is a rewrite of `s` from the old passphrase to the new
/// one: every record of `s` decrypts under the old passphrase, and position
/// by position — never reordered — `out` holds an encryption of that
/// plaintext under the new passphrase.
pub open spec fn rewrites(
    s: Seq<EncryptedCredentialsView>,
    out: Seq<EncryptedCredentialsView>,
    oldp: Seq<char>,
    newp: Seq<char>,
) -> bool {
    &&& dec_all(s, oldp) is Ok
    &&& dec_all(s, oldp).unwrap().len() == s.len()
    &&& out.len() == s.len()
    &&& forall|i: int|
        0 <= i < s.len() ==> encrypts(#[trigger] out[i], dec_all(s, oldp).unwrap()[i], newp)
}

/// The sequence left after removing the positions in `idxs` (strictly
/// ascending) from `s`, keeping the order of everything else.
pub open spec fn remove_indices(
    s: Seq<EncryptedCredentialsView>,
    idxs: Seq<usize>,
) -> Seq<EncryptedCredentialsView>
    decreases idxs.len(),
{
    if idxs.len() == 0 {
        s
    } else {
        remove_indices(s.remove(idxs.last() as int), idxs.drop_last())
    }
}

/// The passphrase argument of a search, as a value.
pub open spec fn pwd_view(p: Option<&str>) -> Option<Seq<char>> {
    match p {
        None => None,
        Some(s) => Some(s@),
    }
}

/// The store positions, in ascending order, whose record matches the
/// pattern.
pub open spec fn match_indices(s: Seq<EncryptedCredentialsView>, pat: Seq<char>) -> Seq<usize>
    decreases s.len(),
{
    if s.len() == 0 {
        Seq::empty()
    } else {
        let rest = match_indices(s.drop_last(), pat);
        if is_match(s.last(), pat) {
            rest.push((s.len() - 1) as usize)
        } else {
            rest
        }
    }
}

/// Match positions are in bounds and strictly ascending.
proof fn lemma_match_indices_wf(s: Seq<EncryptedCredentialsView>, pat: Seq<char>)
    requires
        s.len() <= usize::MAX,
    ensures
        forall|k: int|
            0 <= k < match_indices(s, pat).len() ==> (match_indices(s, pat)[k] as int) < s.len(),
        forall|a: int, b: int|
            0 <= a < b < match_indices(s, pat).len() ==> match_indices(s, pat)[a] < match_indices(
                s,
                pat,
            )[b],
    decreases s.len(),
{
    if s.len() > 0 {
        lemma_match_indices_wf(s.drop_last(), pat);
        let rest = match_indices(s.drop_last(), pat);
        let whole = match_indices(s, pat);
        assert forall|k: int|
            0 <= k < whole.len() implies (whole[k] as int) < s.len() by {
            if k < rest.len() {
                assert(whole[k] == rest[k]);
                assert((rest[k] as int) < s.drop_last().len());
            }
        }
        assert forall|a: int, b: int|
            0 <= a < b < whole.len() implies whole[a] < whole[b] by {
            if b < rest.len() {
                assert(whole[a] == rest[a] && whole[b] == rest[b]);
            } else {
                assert(whole[a] == rest[a]);
                assert((rest[a] as int) < s.drop_last().len());
            }
        }
    }
}

/// A search with identical arguments yields identical ordered results: the
/// outcome is a function of the store contents, the passphrase and the
/// pattern alone.
pub proof fn lemma_search_idempotent(
    s: Seq<EncryptedCredentialsView>,
    pwd: Option<Seq<char>>,
    pat: Seq<char>,
    r1: Result<Seq<CredentialsView>, VaultError>,
    r2: Result<Seq<CredentialsView>, VaultError>,
)
    requires
        r1 == grep_spec(s, pwd, pat),
        r2 == grep_spec(s, pwd, pat),
    ensures
        r1 == r2,
{
}

/// An error of a search prefix is the error of the whole search.
proof fn lemma_grep_err_persists(
    s: Seq<EncryptedCredentialsView>,
    pwd: Option<Seq<char>>,
    pat: Seq<char>,
    i: int,
)
    requires
        0 <= i <= s.len(),
        grep_spec(s.subrange(0, i), pwd, pat) is Err,
    ensures
        grep_spec(s, pwd, pat) == grep_spec(s.subrange(0, i), pwd, pat),
    decreases s.len() - i,
{
    if i == s.len() {
        assert(s.subrange(0, i) =~= s);
    } else {
        assert(s.subrange(0, i + 1).drop_last() =~= s.subrange(0, i));
        lemma_grep_err_persists(s, pwd, pat, i + 1);
    }
}

/// An error of a decryption prefix is the error of the whole pass.
proof fn lemma_dec_all_err_persists(s: Seq<EncryptedCredentialsView>, p: Seq<char>, i: int)
    requires
        0 <= i <= s.len(),
        dec_all(s.subrange(0, i), p) is Err,
    ensures
        dec_all(s, p) == dec_all(s.subrange(0, i), p),
    decreases s.len() - i,
{
    if i == s.len() {
        assert(s.subrange(0, i) =~= s);
    } else {
        assert(s.subrange(0, i + 1).drop_last() =~= s.subrange(0, i));
        lemma_dec_all_err_persists(s, p, i + 1);
    }
}


/// Deleting one row keeps everything before and after it in place, in
/// order: row numbers from a search stay meaningful up to that row.
pub proof fn lemma_delete_one_keeps_order(s: Seq<EncryptedCredentialsView>, i: usize)
    requires
        (i as int) < s.len(),
    ensures
        remove_indices(s, seq![i]) == s.subrange(0, i as int) + s.subrange(
            i as int + 1,
            s.len() as int,
        ),
{
    assert(seq![i].len() == 1);
    assert(seq![i].last() == i);
    assert(seq![i].drop_last() =~= Seq::<usize>::empty());
    assert(remove_indices(s.remove(i as int), seq![i].drop_last()) == s.remove(i as int));
    assert(remove_indices(s, seq![i]) == s.remove(i as int));
}

/// In a strictly ascending sequence the values grow at least as fast as the
/// positions.
proof fn lemma_strict_incr_gap(idxs: Seq<usize>, i: int, j: int)
    requires
        forall|a: int, b: int| 0 <= a < b < idxs.len() ==> idxs[a] < idxs[b],
        0 <= i <= j < idxs.len(),
    ensures
        idxs[i] as int + (j - i) <= idxs[j] as int,
    decreases j - i,
{
    if i < j {
        lemma_strict_incr_gap(idxs, i, j - 1);
    }
}

/// Whether `hay` contains `needle` as a substring of characters.
pub fn str_contains(hay: &str, needle: &str) -> (r: bool)
    ensures
        r == contains_sub(hay@, needle@),
{
    let n: usize = hay.unicode_len();
    let m: usize = needle.unicode_len();
    if m > n {
        proof {
            assert(!contains_sub(hay@, needle@));
        }
        return false;
    }
    if m == 0 {
        proof {
            assert(hay@.subrange(0, 0 + needle@.len() as int) =~= needle@);
        }
        return true;
    }
    let mut k: usize = 0;
    while k <= n - m
        invariant
            1 <= m <= n,
            n == hay@.len(),
            m == needle@.len(),
            k <= n - m + 1,
            forall|kk: int|
                0 <= kk < k ==> #[trigger] hay@.subrange(kk, kk + needle@.len()) != needle@,
        decreases n - m + 1 - k,
    {
        let mut j: usize = 0;
        let mut all_eq = true;
        while j < m
            invariant
                m <= n,
                n == hay@.len(),
                m == needle@.len(),
                k + m <= n,
                j <= m,
                all_eq ==> forall|jj: int| 0 <= jj < j ==> hay@[k + jj] == needle@[jj],
                !all_eq ==> hay@.subrange(k as int, k + needle@.len()) != needle@,
            decreases m - j,
        {
            if all_eq {
                let hc = hay.get_char(k + j);
                let nc = needle.get_char(j);
                if hc != nc {
                    all_eq = false;
                    proof {
                        assert(hay@.subrange(k as int, k + needle@.len())[j as int] == hay@[k + j]);
                    }
                }
            }
            j += 1;
        }
        if all_eq {
            proof {
                assert(hay@.subrange(k as int, k + needle@.len()) =~= needle@);
            }
            return true;
        }
        k += 1;
    }
    proof {
        assert forall|kk: int|
            0 <= kk && kk + needle@.len() <= hay@.len() implies #[trigger] hay@.subrange(
            kk,
            kk + needle@.len(),
        ) != needle@ by {
            assert(kk < k);
        }
    }
    false
}

/// The in-memory mirror of the durable record store: encrypted records in
/// insertion order.
pub struct VaultStore {
    pub records: Vec<EncryptedCredentials>,
}

impl View for VaultStore {
    type V = Seq<EncryptedCredentialsView>;

    open spec fn view(&self) -> Seq<EncryptedCredentialsView> {
        self.records@.map_values(|r: EncryptedCredentials| r@)
    }
}

impl VaultStore {
    /// An empty store.
    pub fn new() -> (r: VaultStore)
        ensures
            r@ == Seq::<EncryptedCredentialsView>::empty(),
    {
        let r = VaultStore { records: Vec::new() };
        proof {
            assert(r@ =~= Seq::<EncryptedCredentialsView>::empty());
        }
        r
    }

    /// A store holding the given records, in their order.
    pub fn from_records(records: Vec<EncryptedCredentials>) -> (r: VaultStore)
        ensures
            r@ == records@.map_values(|e: EncryptedCredentials| e@),
    {
        VaultStore { records }
    }

    /// How many records are stored.
    pub fn len(&self) -> (r: usize)
        ensures
            r == self@.len(),
    {
        self.records.len()
    }

    /// Encrypts one record under the passphrase and appends it; existing
    /// entries are neither re-read nor re-encrypted.
    pub fn save(&mut self, master_pwd: &str, creds: &Credentials)
        ensures
            final(self)@.len() == old(self)@.len() + 1,
            final(self)@.subrange(0, old(self)@.len() as int) == old(self)@,
            encrypts(final(self)@.last(), creds@, master_pwd@),
    {
        let enc = encrypt(creds, master_pwd);
        self.records.push(enc);
        proof {
            assert(self@ =~= old(self)@.push(enc@));
            assert(self@.subrange(0, old(self)@.len() as int) =~= old(self)@);
        }
    }

    /// Every stored record, in storage (insertion) order, still encrypted.
    pub fn read_all(&self) -> (r: Vec<EncryptedCredentials>)
        ensures
            r@.len() == self@.len(),
            forall|i: int| 0 <= i < r@.len() ==> #[trigger] r@[i]@ == self@[i],
    {
        let mut out: Vec<EncryptedCredentials> = Vec::new();
        let mut i: usize = 0;
        while i < self.records.len()
            invariant
                i <= self.records.len(),
                out@.len() == i,
                forall|k: int| 0 <= k < i ==> #[trigger] out@[k]@ == self@[k],
            decreases self.records.len() - i,
        {
            out.push(self.records[i].clone());
            i += 1;
        }
        out
    }

    /// Searches the store: every record whose service or username contains
    /// the pattern, in storage order. With a passphrase, passwords are
    /// decrypted and the first failure aborts the search; without one,
    /// passwords are withheld. No match is not an error.
    pub fn grep(&self, master_pwd: Option<&str>, pattern: &str) -> (r: Result<
        Vec<Credentials>,
        VaultError,
    >)
        ensures
            match r {
                Ok(v) => grep_spec(self@, pwd_view(master_pwd), pattern@) == Ok::<
                    Seq<CredentialsView>,
                    VaultError,
                >(v@.map_values(|c: Credentials| c@)),
                Err(e) => grep_spec(self@, pwd_view(master_pwd), pattern@) == Err::<
                    Seq<CredentialsView>,
                    VaultError,
                >(e),
            },
    {
        let ghost pwd = pwd_view(master_pwd);
        let mut out: Vec<Credentials> = Vec::new();
        proof {
            assert(self@.subrange(0, 0) =~= Seq::<EncryptedCredentialsView>::empty());
            assert(out@.map_values(|c: Credentials| c@) =~= Seq::<CredentialsView>::empty());
        }
        let mut i: usize = 0;
        while i < self.records.len()
            invariant
                i <= self.records.len(),
                pwd == pwd_view(master_pwd),
                grep_spec(self@.subrange(0, i as int), pwd, pattern@) == Ok::<
                    Seq<CredentialsView>,
                    VaultError,
                >(out@.map_values(|c: Credentials| c@)),
            decreases self.records.len() - i,
        {
            proof {
                assert(self@.subrange(0, i + 1 as int).drop_last() =~= self@.subrange(0, i as int));
                assert(self@.subrange(0, i + 1 as int).last() == self@[i as int]);
            }
            let ghost prev = out@.map_values(|c: Credentials| c@);
            let rec = &self.records[i];
            let service_hit = str_contains(rec.service.as_str(), pattern);
            let hit = service_hit || str_contains(rec.username.as_str(), pattern);
            if hit {
                match master_pwd {
                    None => {
                        let masked_rec = Credentials {
                            service: rec.service.clone(),
                            username: rec.username.clone(),
                            password: String::new(),
                        };
                        proof {
                            assert(masked_rec@ =~= masked(self@[i as int]));
                        }
                        out.push(masked_rec);
                        proof {
                            assert(out@.map_values(|c: Credentials| c@) =~= prev.push(
                                masked(self@[i as int]),
                            ));
                        }
                    },
                    Some(p) => {
                        match decrypt(rec, p) {
                            Err(e) => {
                                proof {
                                    lemma_grep_err_persists(self@, pwd, pattern@, i + 1);
                                }
                                return Err(e);
                            },
                            Ok(c) => {
                                proof {
                                    assert(c@ == decrypt_spec(self@[i as int], p@).unwrap());
                                }
                                out.push(c);
                                proof {
                                    assert(out@.map_values(|c: Credentials| c@) =~= prev.push(
                                        decrypt_spec(self@[i as int], p@).unwrap(),
                                    ));
                                }
                            },
                        }
                    },
                }
            }
            i += 1;
        }
        proof {
            assert(self@.subrange(0, self@.len() as int) =~= self@);
        }
        Ok(out)
    }

    /// The store positions whose record matches the pattern, in ascending
    /// order: the rows a search reports, as positions fit to hand to
    /// `delete`.
    pub fn grep_indices(&self, pattern: &str) -> (r: Vec<usize>)
        ensures
            r@ == match_indices(self@, pattern@),
            forall|k: int| 0 <= k < r@.len() ==> (r@[k] as int) < self@.len(),
            forall|a: int, b: int| 0 <= a < b < r@.len() ==> r@[a] < r@[b],
    {
        let mut out: Vec<usize> = Vec::new();
        proof {
            assert(self@.subrange(0, 0) =~= Seq::<EncryptedCredentialsView>::empty());
            assert(out@ =~= match_indices(self@.subrange(0, 0), pattern@));
        }
        let mut i: usize = 0;
        while i < self.records.len()
            invariant
                i <= self.records.len(),
                out@ == match_indices(self@.subrange(0, i as int), pattern@),
            decreases self.records.len() - i,
        {
            proof {
                assert(self@.subrange(0, i + 1 as int).drop_last() =~= self@.subrange(0, i as int));
                assert(self@.subrange(0, i + 1 as int).last() == self@[i as int]);
            }
            let rec = &self.records[i];
            let service_hit = str_contains(rec.service.as_str(), pattern);
            let hit = service_hit || str_contains(rec.username.as_str(), pattern);
            if hit {
                out.push(i);
            }
            i += 1;
        }
        proof {
            assert(self@.subrange(0, self@.len() as int) =~= self@);
            lemma_match_indices_wf(self@, pattern@);
        }
        out
    }

    /// Removes exactly the records at the given positions (strictly
    /// ascending), keeping the order of the rest; all-or-nothing in memory.
    pub fn delete(&mut self, indices: &Vec<usize>)
        requires
            forall|a: int, b: int|
                0 <= a < b < indices@.len() ==> indices@[a] < indices@[b],
            forall|a: int|
                0 <= a < indices@.len() ==> (indices@[a] as int) < old(self)@.len(),
        ensures
            final(self)@ == remove_indices(old(self)@, indices@),
    {
        let n: usize = indices.len();
        proof {
            assert(indices@.subrange(0, n as int) =~= indices@);
        }
        let mut k: usize = n;
        while k > 0
            invariant
                k <= n,
                n == indices@.len(),
                forall|a: int, b: int|
                    0 <= a < b < indices@.len() ==> indices@[a] < indices@[b],
                self@.len() == old(self)@.len() - (n - k),
                forall|a: int|
                    0 <= a < k ==> (indices@[a] as int) < self@.len(),
                remove_indices(old(self)@, indices@) == remove_indices(
                    self@,
                    indices@.subrange(0, k as int),
                ),
            decreases k,
        {
            k -= 1;
            proof {
                assert(indices@.subrange(0, k + 1 as int).last() == indices@[k as int]);
                assert(indices@.subrange(0, k + 1 as int).drop_last() =~= indices@.subrange(
                    0,
                    k as int,
                ));
            }
            let ghost pre = self@;
            self.records.remove(indices[k]);
            proof {
                assert(self@ =~= pre.remove(indices@[k as int] as int));
                if k > 0 {
                    assert forall|a: int| 0 <= a < k implies (indices@[a] as int) < self@.len() by {
                        lemma_strict_incr_gap(indices@, a, k as int);
                    }
                }
            }
        }
        proof {
            assert(indices@.subrange(0, 0) =~= Seq::<usize>::empty());
        }
    }

    /// Re-encrypts the whole store under a new passphrase. Decrypts every
    /// record with the old passphrase first and aborts on the first failure,
    /// leaving the store exactly as it was; only when every record decrypted
    /// is the collection replaced, in one step, in the original order.
    pub fn update_master_password(&mut self, old_pwd: &str, new_pwd: &str) -> (r: Result<
        usize,
        VaultError,
    >)
        ensures
            match r {
                Ok(n) => {
                    &&& rewrites(old(self)@, final(self)@, old_pwd@, new_pwd@)
                    &&& n == old(self)@.len()
                },
                Err(e) => {
                    &&& dec_all(old(self)@, old_pwd@) == Err::<Seq<CredentialsView>, VaultError>(
                        e,
                    )
                    &&& final(self)@ == old(self)@
                },
            },
    {
        let mut plain: Vec<Credentials> = Vec::new();
        proof {
            assert(self@.subrange(0, 0) =~= Seq::<EncryptedCredentialsView>::empty());
            assert(plain@.map_values(|c: Credentials| c@) =~= Seq::<CredentialsView>::empty());
        }
        let mut i: usize = 0;
        while i < self.records.len()
            invariant
                i <= self.records.len(),
                plain@.len() == i,
                dec_all(self@.subrange(0, i as int), old_pwd@) == Ok::<
                    Seq<CredentialsView>,
                    VaultError,
                >(plain@.map_values(|c: Credentials| c@)),
            decreases self.records.len() - i,
        {
            proof {
                assert(self@.subrange(0, i + 1 as int).drop_last() =~= self@.subrange(0, i as int));
                assert(self@.subrange(0, i + 1 as int).last() == self@[i as int]);
            }
            match decrypt(&self.records[i], old_pwd) {
                Err(e) => {
                    proof {
                        lemma_dec_all_err_persists(self@, old_pwd@, i + 1);
                    }
                    return Err(e);
                },
                Ok(c) => {
                    let ghost prev = plain@.map_values(|c: Credentials| c@);
                    proof {
                        assert(c@ == decrypt_spec(self@[i as int], old_pwd@).unwrap());
                    }
                    plain.push(c);
                    proof {
                        assert(plain@.map_values(|c: Credentials| c@) =~= prev.push(
                            decrypt_spec(self@[i as int], old_pwd@).unwrap(),
                        ));
                    }
                },
            }
            i += 1;
        }
        proof {
            assert(self@.subrange(0, self@.len() as int) =~= self@);
        }
        let count: usize = plain.len();
        let mut renewed: Vec<EncryptedCredentials> = Vec::new();
        let mut j: usize = 0;
        while j < plain.len()
            invariant
                j <= plain.len(),
                renewed@.len() == j,
                forall|a: int|
                    0 <= a < j ==> encrypts(#[trigger] renewed@[a]@, plain@[a]@, new_pwd@),
            decreases plain.len() - j,
        {
            renewed.push(encrypt(&plain[j], new_pwd));
            j += 1;
        }
        self.records = renewed;
        proof {
            assert(self@.len() == plain@.len());
            assert forall|a: int| 0 <= a < old(self)@.len() implies encrypts(
                #[trigger] self@[a],
                dec_all(old(self)@, old_pwd@).unwrap()[a],
                new_pwd@,
            ) by {
                assert(self@[a] == renewed@[a]@);
                assert(dec_all(old(self)@, old_pwd@).unwrap()[a] == plain@.map_values(
                    |c: Credentials| c@,
                )[a]);
            }
        }
        Ok(count)
    }

    /// Encrypts and appends every record of a batch, in order; already
    /// appended entries stay even if the caller stops early.
    pub fn import(&mut self, credentials: &Vec<Credentials>, master_pwd: &str) -> (r: usize)
        ensures
            r == credentials@.len(),
            final(self)@.len() == old(self)@.len() + credentials@.len(),
            final(self)@.subrange(0, old(self)@.len() as int) == old(self)@,
            forall|i: int|
                0 <= i < credentials@.len() ==> encrypts(
                    #[trigger] final(self)@[old(self)@.len() + i],
                    credentials@[i]@,
                    master_pwd@,
                ),
    {
        let mut i: usize = 0;
        while i < credentials.len()
            invariant
                i <= credentials.len(),
                self@.len() == old(self)@.len() + i,
                self@.subrange(0, old(self)@.len() as int) == old(self)@,
                forall|k: int|
                    0 <= k < i ==> encrypts(
                        #[trigger] self@[old(self)@.len() + k],
                        credentials@[k]@,
                        master_pwd@,
                    ),
            decreases credentials.len() - i,
        {
            let ghost prev_view = self@;
            let enc = encrypt(&credentials[i], master_pwd);
            self.records.push(enc);
            proof {
                assert(self@ =~= prev_view.push(enc@));
                assert(self@.subrange(0, old(self)@.len() as int) =~= prev_view.subrange(
                    0,
                    old(self)@.len() as int,
                ));
            }
            i += 1;
        }
        credentials.len()
    }
}

} // verus!
