//! The shape of what the remote vault returns to a search: a list of vaults,
//! each optionally holding a list of optional credentials. Flattening that
//! nest into one ordered list of records is the only computation in the
//! remote search path; the network call itself lives outside the library.

use vstd::prelude::*;

use crate::records::{Credentials, CredentialsView};

verus! {

/// The records of one vault's reply, in order; absent entries are skipped.
pub open spec fn flatten_inner(s: Seq<Option<Credentials>>) -> Seq<CredentialsView>
    decreases s.len(),
{
    if s.len() == 0 {
        Seq::empty()
    } else {
        flatten_inner(s.drop_last()) + (match s.last() {
            Some(c) => seq![c@],
            None => Seq::empty(),
        })
    }
}

/// The records of all vaults' replies, vault by vault, in order; vaults
/// without credentials contribute nothing.
pub open spec fn flatten_vaults(s: Seq<Option<Vec<Option<Credentials>>>>) -> Seq<CredentialsView>
    decreases s.len(),
{
    if s.len() == 0 {
        Seq::empty()
    } else {
        flatten_vaults(s.drop_last()) + (match s.last() {
            Some(v) => flatten_inner(v@),
            None => Seq::empty(),
        })
    }
}

/// Flattens a remote search reply into one ordered list of records,
/// skipping absent vault contents and absent entries, keeping the order of
/// everything present.
pub fn flatten_search_results(vaults: &Vec<Option<Vec<Option<Credentials>>>>) -> (r: Vec<
    Credentials,
>)
    ensures
        r@.map_values(|c: Credentials| c@) == flatten_vaults(vaults@),
{
    let mut out: Vec<Credentials> = Vec::new();
    proof {
        assert(vaults@.subrange(0, 0) =~= Seq::<Option<Vec<Option<Credentials>>>>::empty());
        assert(out@.map_values(|c: Credentials| c@) =~= Seq::<CredentialsView>::empty());
    }
    let mut i: usize = 0;
    while i < vaults.len()
        invariant
            i <= vaults.len(),
            out@.map_values(|c: Credentials| c@) == flatten_vaults(vaults@.subrange(0, i as int)),
        decreases vaults.len() - i,
    {
        proof {
            assert(vaults@.subrange(0, i + 1 as int).drop_last() =~= vaults@.subrange(0, i as int));
            assert(vaults@.subrange(0, i + 1 as int).last() == vaults@[i as int]);
        }
        match &vaults[i] {
            None => {
                proof {
                    assert(out@.map_values(|c: Credentials| c@) =~= flatten_vaults(
                        vaults@.subrange(0, i + 1 as int),
                    ));
                }
            },
            Some(inner) => {
                let ghost base = flatten_vaults(vaults@.subrange(0, i as int));
                proof {
                    assert(inner@.subrange(0, 0) =~= Seq::<Option<Credentials>>::empty());
                    assert(out@.map_values(|c: Credentials| c@) =~= base + flatten_inner(
                        inner@.subrange(0, 0),
                    ));
                }
                let mut j: usize = 0;
                while j < inner.len()
                    invariant
                        j <= inner.len(),
                        base == flatten_vaults(vaults@.subrange(0, i as int)),
                        out@.map_values(|c: Credentials| c@) == base + flatten_inner(
                            inner@.subrange(0, j as int),
                        ),
                    decreases inner.len() - j,
                {
                    proof {
                        assert(inner@.subrange(0, j + 1 as int).drop_last() =~= inner@.subrange(
                            0,
                            j as int,
                        ));
                        assert(inner@.subrange(0, j + 1 as int).last() == inner@[j as int]);
                    }
                    let ghost prev = out@.map_values(|c: Credentials| c@);
                    match &inner[j] {
                        None => {
                            proof {
                                assert(prev =~= base + flatten_inner(
                                    inner@.subrange(0, j + 1 as int),
                                ));
                            }
                        },
                        Some(c) => {
                            out.push(c.clone());
                            proof {
                                assert(out@.map_values(|c: Credentials| c@) =~= prev.push(
                                    inner@[j as int].unwrap()@,
                                ));
                                assert(out@.map_values(|c: Credentials| c@) =~= base
                                    + flatten_inner(inner@.subrange(0, j + 1 as int)));
                            }
                        },
                    }
                    j += 1;
                }
                proof {
                    assert(inner@.subrange(0, inner@.len() as int) =~= inner@);
                    assert(out@.map_values(|c: Credentials| c@) =~= flatten_vaults(
                        vaults@.subrange(0, i + 1 as int),
                    ));
                }
            },
        }
        i += 1;
    }
    proof {
        assert(vaults@.subrange(0, vaults@.len() as int) =~= vaults@);
    }
    out
}

} // verus!
