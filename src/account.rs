use vstd::prelude::*;

verus! {

/// An account identifier, held as the bytes of the textual key by which the
/// host names a party (for instance its strkey). Two identifiers name the same
/// party exactly when their bytes are equal.
#[derive(Clone, Debug)]
pub struct AccountId {
    key: Vec<u8>,
}

impl View for AccountId {
    type V = Seq<u8>;

    closed spec fn view(&self) -> Seq<u8> {
        self.key@
    }
}

impl AccountId {
    pub fn new(key: Vec<u8>) -> (r: AccountId)
        ensures
            r@ == key@,
    {
        AccountId { key }
    }

    /// The bytes of the key.
    pub fn key(&self) -> (r: &Vec<u8>)
        ensures
            r@ == self@,
    {
        &self.key
    }

    /// A second identifier naming the same party.
    pub fn duplicate(&self) -> (r: AccountId)
        ensures
            r@ == self@,
    {
        let mut key: Vec<u8> = Vec::with_capacity(self.key.len());
        let mut i: usize = 0;
        while i < self.key.len()
            invariant
                i <= self.key@.len(),
                key@ == self.key@.subrange(0, i as int),
            decreases self.key@.len() - i,
        {
            key.push(self.key[i]);
            i = i + 1;
            assert(key@ =~= self.key@.subrange(0, i as int));
        }
        assert(key@ =~= self.key@);
        AccountId { key }
    }
}

impl PartialEq for AccountId {
    fn eq(&self, other: &AccountId) -> (r: bool) {
        if self.key.len() != other.key.len() {
            assert(self.key@.len() != other.key@.len());
            return false;
        }
        let mut i: usize = 0;
        while i < self.key.len()
            invariant
                i <= self.key@.len(),
                self.key@.len() == other.key@.len(),
                self.key@.subrange(0, i as int) == other.key@.subrange(0, i as int),
            decreases self.key@.len() - i,
        {
            if self.key[i] != other.key[i] {
                assert(self.key@[i as int] != other.key@[i as int]);
                return false;
            }
            assert(self.key@.subrange(0, i + 1) =~= self.key@.subrange(0, i as int).push(self.key@[i as int]));
            assert(other.key@.subrange(0, i + 1) =~= other.key@.subrange(0, i as int).push(other.key@[i as int]));
            i = i + 1;
        }
        assert(self.key@ =~= self.key@.subrange(0, i as int));
        assert(other.key@ =~= other.key@.subrange(0, i as int));
        true
    }
}

impl vstd::std_specs::cmp::PartialEqSpecImpl for AccountId {
    open spec fn obeys_eq_spec() -> bool {
        true
    }

    open spec fn eq_spec(&self, other: &AccountId) -> bool {
        self@ == other@
    }
}

impl Eq for AccountId {
}

} // verus!
