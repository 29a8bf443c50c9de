use vstd::prelude::*;

verus! {

/// The public identity of an actor: thirty-two bytes, compared byte by byte.
#[derive(Clone, Copy, Debug)]
pub struct Identity {
    pub bytes: [u8; 32],
}

impl View for Identity {
    type V = Seq<u8>;

    open spec fn view(&self) -> Seq<u8> {
        self.bytes@
    }
}

impl PartialEq for Identity {
    fn eq(&self, other: &Identity) -> (r: bool) {
        let mut i: usize = 0;
        while i < 32
            invariant
                i <= 32,
                forall|k: int| 0 <= k < i ==> self.bytes@[k] == other.bytes@[k],
            decreases 32 - i,
        {
            if self.bytes[i] != other.bytes[i] {
                return false;
            }
            i += 1;
        }
        proof {
            assert(self.bytes =~= other.bytes);
        }
        true
    }
}

impl Eq for Identity {

}

impl vstd::std_specs::cmp::PartialEqSpecImpl for Identity {
    open spec fn obeys_eq_spec() -> bool {
        true
    }

    open spec fn eq_spec(&self, other: &Identity) -> bool {
        *self == *other
    }
}

impl Identity {
    /// The identity made of the given bytes.
    pub fn new(bytes: [u8; 32]) -> (r: Identity)
        ensures
            r@ == bytes@,
            r.bytes == bytes,
    {
        Identity { bytes }
    }

    /// Two identities are the same exactly if their bytes are.
    pub proof fn lemma_same_bytes(a: Identity, b: Identity)
        ensures
            a == b <==> a@ == b@,
    {
        if a@ == b@ {
            assert(a.bytes =~= b.bytes);
        }
    }
}

} // verus!
