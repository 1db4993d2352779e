//! Account addresses.
use vstd::prelude::*;

verus! {

/// The address of an account or of a program.
#[derive(Clone, Copy, Eq, Debug)]
pub struct Pubkey {
    pub bytes: [u8; 32],
}

impl View for Pubkey {
    type V = Seq<u8>;

    open spec fn view(&self) -> Seq<u8> {
        self.bytes@
    }
}

/// Tells whether two byte strings are equal.
pub fn bytes_equal(a: &[u8], b: &[u8]) -> (r: bool)
    ensures
        r == (a@ == b@),
{
    if a.len() != b.len() {
        return false;
    }
    for i in 0..a.len()
        invariant
            a@.len() == b@.len(),
            forall|j: int| 0 <= j < i ==> a@[j] == b@[j],
    {
        if a[i] != b[i] {
            return false;
        }
    }
    assert(a@ =~= b@);
    true
}

impl PartialEq for Pubkey {
    fn eq(&self, other: &Self) -> (r: bool) {
        bytes_equal(&self.bytes, &other.bytes)
    }
}

impl vstd::std_specs::cmp::PartialEqSpecImpl for Pubkey {
    open spec fn obeys_eq_spec() -> bool {
        true
    }

    open spec fn eq_spec(&self, other: &Self) -> bool {
        self@ == other@
    }
}

/// Two addresses with the same bytes are the same address.
pub proof fn lemma_pubkey_extensional(a: Pubkey, b: Pubkey)
    ensures
        a@ == b@ <==> a == b,
{
    if a@ == b@ {
        assert forall|i: int| 0 <= i < 32 implies a.bytes[i] == b.bytes[i] by {
            assert(a.bytes@[i] == b.bytes@[i]);
        }
        assert(a.bytes =~= b.bytes);
    }
}

/// The bytes of a list of addresses.
pub open spec fn pubkey_bytes(keys: Seq<Pubkey>) -> Seq<Seq<u8>> {
    Seq::new(keys.len(), |i: int| keys[i]@)
}

/// The address that the schedule-commit program is deployed at,
/// `9hgprgZiRWmy8KkfvUuaVkDGrqo9GzeXMohwq6BazgUY` in base 58.
pub open spec fn program_id_bytes() -> Seq<u8> {
    seq![
        129u8, 73, 194, 23, 165, 156, 241, 182, 9, 105, 1, 126, 88, 248, 48, 202,
        140, 74, 124, 96, 219, 240, 12, 109, 2, 178, 241, 98, 85, 206, 54, 49,
    ]
}

/// The address of the schedule-commit program.
pub fn id() -> (r: Pubkey)
    ensures
        r@ == program_id_bytes(),
{
    let bytes: [u8; 32] = [
        129, 73, 194, 23, 165, 156, 241, 182, 9, 105, 1, 126, 88, 248, 48, 202,
        140, 74, 124, 96, 219, 240, 12, 109, 2, 178, 241, 98, 85, 206, 54, 49,
    ];
    assert(bytes@ =~= program_id_bytes());
    Pubkey { bytes }
}

} // verus!
