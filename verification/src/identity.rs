use vstd::prelude::*;

verus! {

/// Who joins a circle, administers it or owns an escrow balance.
///
/// An identity is either an account or a contract, named by a 256-bit key that
/// is held here as two halves. Two identities are the same exactly when all
/// three fields agree.
#[derive(Clone, Copy, Debug, PartialEq, Eq, Structural)]
pub struct Identity {
    /// `true` for a contract, `false` for an account.
    pub contract: bool,
    /// The upper 128 bits of the key.
    pub hi: u128,
    /// The lower 128 bits of the key.
    pub lo: u128,
}

impl Identity {
    /// The account with the given key.
    pub fn account(hi: u128, lo: u128) -> (id: Identity)
        ensures
            id == (Identity { contract: false, hi, lo }),
    {
        Identity { contract: false, hi, lo }
    }

    /// The contract with the given key.
    pub fn contract(hi: u128, lo: u128) -> (id: Identity)
        ensures
            id == (Identity { contract: true, hi, lo }),
    {
        Identity { contract: true, hi, lo }
    }
}

/// The first position at which `who` stands in `members`, if it stands there at all.
pub fn position_of(members: &Vec<Identity>, who: Identity) -> (found: Option<usize>)
    ensures
        match found {
            Some(i) => {
                &&& i < members@.len()
                &&& members@[i as int] == who
                &&& forall|j: int| 0 <= j < i ==> members@[j] != who
            },
            None => !members@.contains(who),
        },
{
    let mut i: usize = 0;
    while i < members.len()
        invariant
            i <= members@.len(),
            forall|j: int| 0 <= j < i ==> members@[j] != who,
        decreases members@.len() - i,
    {
        if members[i] == who {
            return Some(i);
        }
        i += 1;
    }
    None
}

} // verus!
