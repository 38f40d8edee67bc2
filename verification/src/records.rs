//! Credential records: the plaintext triple and its encrypted form.

use vstd::prelude::*;

verus! {

/// One service/username/password triple. The password is plaintext; a value
/// of this type lives in memory only, never at rest.
#[derive(Debug)]
pub struct Credentials {
    pub service: String,
    pub username: String,
    pub password: String,
}

/// The mathematical value of a `Credentials`: its three fields as
/// character sequences.
#[verifier::ext_equal]
pub struct CredentialsView {
    pub service: Seq<char>,
    pub username: Seq<char>,
    pub password: Seq<char>,
}

impl View for Credentials {
    type V = CredentialsView;

    open spec fn view(&self) -> CredentialsView {
        CredentialsView {
            service: self.service@,
            username: self.username@,
            password: self.password@,
        }
    }
}

impl Credentials {
    pub fn new(service: String, username: String, password: String) -> (r: Credentials)
        ensures
            r@.service == service@,
            r@.username == username@,
            r@.password == password@,
    {
        Credentials { service, username, password }
    }

    pub fn clone(&self) -> (r: Credentials)
        ensures
            r@ == self@,
    {
        let r = Credentials {
            service: self.service.clone(),
            username: self.username.clone(),
            password: self.password.clone(),
        };
        proof {
            assert(r@ =~= self@);
        }
        r
    }
}

impl PartialEq for Credentials {
    fn eq(&self, other: &Credentials) -> (r: bool) {
        let r = self.service == other.service && self.username == other.username
            && self.password == other.password;
        proof {
            if r {
                assert(self@ =~= other@);
            }
        }
        r
    }
}

impl vstd::std_specs::cmp::PartialEqSpecImpl for Credentials {
    open spec fn obeys_eq_spec() -> bool {
        true
    }

    open spec fn eq_spec(&self, other: &Credentials) -> bool {
        self@ == other@
    }
}

/// The encrypted form of a record. `service` and `username` stay in the
/// clear so the store can be searched without decryption; the password is
/// held as `cipher` (one code per password character) together with `check`,
/// a salted one-way key check that makes decryption under a wrong key
/// detectable and carries the per-record randomness.
#[derive(Debug)]
pub struct EncryptedCredentials {
    pub service: String,
    pub username: String,
    pub cipher: Vec<u32>,
    pub check: String,
}

/// The mathematical value of an `EncryptedCredentials`.
#[verifier::ext_equal]
pub struct EncryptedCredentialsView {
    pub service: Seq<char>,
    pub username: Seq<char>,
    pub cipher: Seq<u32>,
    pub check: Seq<char>,
}

impl View for EncryptedCredentials {
    type V = EncryptedCredentialsView;

    open spec fn view(&self) -> EncryptedCredentialsView {
        EncryptedCredentialsView {
            service: self.service@,
            username: self.username@,
            cipher: self.cipher@,
            check: self.check@,
        }
    }
}

impl EncryptedCredentials {
    pub fn clone(&self) -> (r: EncryptedCredentials)
        ensures
            r@ == self@,
    {
        let mut cipher: Vec<u32> = Vec::new();
        let mut i: usize = 0;
        while i < self.cipher.len()
            invariant
                i <= self.cipher.len(),
                cipher@ == self.cipher@.subrange(0, i as int),
            decreases self.cipher.len() - i,
        {
            cipher.push(self.cipher[i]);
            proof {
                assert(cipher@ =~= self.cipher@.subrange(0, i + 1 as int));
            }
            i += 1;
        }
        let r = EncryptedCredentials {
            service: self.service.clone(),
            username: self.username.clone(),
            cipher,
            check: self.check.clone(),
        };
        proof {
            assert(self.cipher@.subrange(0, self.cipher@.len() as int) =~= self.cipher@);
            assert(r@ =~= self@);
        }
        r
    }
}

impl PartialEq for EncryptedCredentials {
    fn eq(&self, other: &EncryptedCredentials) -> (r: bool) {
        let r = self.service == other.service && self.username == other.username
            && self.cipher == other.cipher && self.check == other.check;
        proof {
            if r {
                assert(self.cipher@ =~= other.cipher@);
                assert(self@ =~= other@);
            } else {
                if self@ == other@ {
                    assert(self.cipher@ =~= other.cipher@);
                    assert(forall|i: int|
                        0 <= i < self.cipher@.len() ==> self.cipher@[i] == other.cipher@[i]);
                    assert(false);
                }
            }
        }
        r
    }
}

impl vstd::std_specs::cmp::PartialEqSpecImpl for EncryptedCredentials {
    open spec fn obeys_eq_spec() -> bool {
        true
    }

    open spec fn eq_spec(&self, other: &EncryptedCredentials) -> bool {
        self@ == other@
    }
}

} // verus!
