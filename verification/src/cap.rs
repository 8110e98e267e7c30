//! Capabilities and account identities.
//!
//! A capability is the system's model of the host's unforgeable storage
//! reference: a 32-byte address together with an access-rights bit set.
//! An account identity is the host-derived 32-byte account hash under which
//! the access contract keys its per-user capability index.

use vstd::prelude::*;

verus! {

/// Number of bytes in a capability address and in an account hash.
pub const ADDR_LEN: usize = 32;

/// Mathematical model of a [`Capability`]: the address bytes and the
/// access-rights bits it carries.
#[verifier::ext_equal]
pub struct CapModel {
    pub addr: Seq<u8>,
    pub rights: u8,
}

impl CapModel {
    /// A well-formed capability has a full-width address and only the three
    /// defined permission bits (read, write, add) set.
    pub open spec fn wf(self) -> bool {
        &&& self.addr.len() == ADDR_LEN
        &&& self.rights < 8
    }

    /// The host's sentinel "zero" capability: all-zero address, no rights.
    /// It is invalid and must never be distributed or accepted.
    pub open spec fn is_zero(self) -> bool {
        &&& forall|i: int| 0 <= i < self.addr.len() ==> self.addr[i] == 0
        &&& self.rights == 0
    }
}

/// An unforgeable token authorizing its holder to act under the permissions
/// attached to it: read/write/add on a storage cell, or membership in an
/// access group. Minted by the host; this system only records and hands
/// them out.
pub struct Capability {
    /// The 32-byte address of the referenced storage cell or group slot.
    pub addr: Vec<u8>,
    /// The access-rights bits (read = 1, write = 2, add = 4).
    pub rights: u8,
}

impl View for Capability {
    type V = CapModel;

    open spec fn view(&self) -> CapModel {
        CapModel { addr: self.addr@, rights: self.rights }
    }
}

/// The lowercase hexadecimal digit for a nibble.
pub open spec fn hex_digit(n: u8) -> char {
    if n == 0 {
        '0'
    } else if n == 1 {
        '1'
    } else if n == 2 {
        '2'
    } else if n == 3 {
        '3'
    } else if n == 4 {
        '4'
    } else if n == 5 {
        '5'
    } else if n == 6 {
        '6'
    } else if n == 7 {
        '7'
    } else if n == 8 {
        '8'
    } else if n == 9 {
        '9'
    } else if n == 10 {
        'a'
    } else if n == 11 {
        'b'
    } else if n == 12 {
        'c'
    } else if n == 13 {
        'd'
    } else if n == 14 {
        'e'
    } else {
        'f'
    }
}

/// Lowercase hexadecimal rendering of a byte sequence: two digits per
/// byte, high nibble first.
pub open spec fn hex_of(bytes: Seq<u8>) -> Seq<char>
    decreases bytes.len(),
{
    if bytes.len() == 0 {
        Seq::empty()
    } else {
        seq![hex_digit(bytes[0] / 16), hex_digit(bytes[0] % 16)] + hex_of(bytes.drop_first())
    }
}

/// The name of an access-rights bit set (read = 1, write = 2, add = 4),
/// as the host renders it.
pub open spec fn rights_name(rights: u8) -> Seq<char> {
    if rights == 0 {
        "NONE"@
    } else if rights == 1 {
        "READ"@
    } else if rights == 2 {
        "WRITE"@
    } else if rights == 3 {
        "READ_WRITE"@
    } else if rights == 4 {
        "ADD"@
    } else if rights == 5 {
        "READ_ADD"@
    } else if rights == 6 {
        "ADD_WRITE"@
    } else {
        "READ_ADD_WRITE"@
    }
}

/// The canonical textual form of a capability, as the host renders it:
/// the fixed prefix, the lowercase hex of the address, a separator, the
/// rights name, and the closing parenthesis.
pub open spec fn cap_name_of(addr: Seq<u8>, rights: u8) -> Seq<char> {
    "URef("@ + hex_of(addr) + ", "@ + rights_name(rights) + ")"@
}

/// The rendering of a byte sequence has two digits per byte.
pub proof fn lemma_hex_len(bytes: Seq<u8>)
    ensures
        hex_of(bytes).len() == 2 * bytes.len(),
    decreases bytes.len(),
{
    if bytes.len() > 0 {
        lemma_hex_len(bytes.drop_first());
    }
}

proof fn lemma_hex_digit_injective(x: u8, y: u8)
    requires
        x < 16,
        y < 16,
        hex_digit(x) == hex_digit(y),
    ensures
        x == y,
{
}

proof fn lemma_hex_injective(b1: Seq<u8>, b2: Seq<u8>)
    requires
        b1.len() == b2.len(),
        hex_of(b1) == hex_of(b2),
    ensures
        b1 == b2,
    decreases b1.len(),
{
    if b1.len() > 0 {
        lemma_hex_len(b1.drop_first());
        lemma_hex_len(b2.drop_first());
        assert(hex_of(b1)[0] == hex_digit(b1[0] / 16));
        assert(hex_of(b2)[0] == hex_digit(b2[0] / 16));
        assert(hex_of(b1)[1] == hex_digit(b1[0] % 16));
        assert(hex_of(b2)[1] == hex_digit(b2[0] % 16));
        lemma_hex_digit_injective(b1[0] / 16, b2[0] / 16);
        lemma_hex_digit_injective(b1[0] % 16, b2[0] % 16);
        assert(b1[0] == b2[0]);
        assert(hex_of(b1.drop_first()) =~= hex_of(b2.drop_first())) by {
            assert forall|i: int|
                0 <= i < hex_of(b1.drop_first()).len() implies hex_of(b1.drop_first())[i] == hex_of(
                b2.drop_first(),
            )[i] by {
                assert(hex_of(b1)[i + 2] == hex_of(b1.drop_first())[i]);
                assert(hex_of(b2)[i + 2] == hex_of(b2.drop_first())[i]);
            }
        }
        lemma_hex_injective(b1.drop_first(), b2.drop_first());
        assert forall|i: int| 0 <= i < b1.len() implies b1[i] == b2[i] by {
            if i > 0 {
                assert(b1.drop_first()[i - 1] == b1[i]);
                assert(b2.drop_first()[i - 1] == b2[i]);
            }
        }
        assert(b1 =~= b2);
    } else {
        assert(b1 =~= b2);
    }
}

proof fn lemma_rights_name_injective(r1: u8, r2: u8)
    requires
        r1 < 8,
        r2 < 8,
        rights_name(r1) == rights_name(r2),
    ensures
        r1 == r2,
{
    reveal_strlit("NONE");
    reveal_strlit("READ");
    reveal_strlit("WRITE");
    reveal_strlit("READ_WRITE");
    reveal_strlit("ADD");
    reveal_strlit("READ_ADD");
    reveal_strlit("ADD_WRITE");
    reveal_strlit("READ_ADD_WRITE");
    // The eight names differ in length, except the two of length four,
    // which differ in their first character.
    assert(rights_name(0).len() == 4);
    assert(rights_name(1).len() == 4);
    assert(rights_name(2).len() == 5);
    assert(rights_name(3).len() == 10);
    assert(rights_name(4).len() == 3);
    assert(rights_name(5).len() == 8);
    assert(rights_name(6).len() == 9);
    assert(rights_name(7).len() == 14);
    assert(rights_name(0)[0] == 'N');
    assert(rights_name(1)[0] == 'R');
}

/// Distinct well-formed capabilities render to distinct canonical names:
/// the named keys the authorizer installs never collide.
pub proof fn lemma_cap_name_injective(c1: CapModel, c2: CapModel)
    requires
        c1.wf(),
        c2.wf(),
        cap_name_of(c1.addr, c1.rights) == cap_name_of(c2.addr, c2.rights),
    ensures
        c1.addr == c2.addr,
        c1.rights == c2.rights,
{
    reveal_strlit("URef(");
    reveal_strlit(", ");
    reveal_strlit(")");
    lemma_hex_len(c1.addr);
    lemma_hex_len(c2.addr);
    let s1 = cap_name_of(c1.addr, c1.rights);
    let s2 = cap_name_of(c2.addr, c2.rights);
    let h1 = hex_of(c1.addr);
    let h2 = hex_of(c2.addr);
    let r1 = rights_name(c1.rights);
    let r2 = rights_name(c2.rights);
    assert(h1.len() == 64 && h2.len() == 64);
    assert(s1.len() == 72 + r1.len());
    assert(s2.len() == 72 + r2.len());
    assert(r1.len() == r2.len());
    assert forall|i: int| 0 <= i < 64 implies h1[i] == h2[i] by {
        assert(s1[5 + i] == h1[i]);
        assert(s2[5 + i] == h2[i]);
    }
    assert(h1 =~= h2);
    lemma_hex_injective(c1.addr, c2.addr);
    assert forall|i: int| 0 <= i < r1.len() implies r1[i] == r2[i] by {
        assert(s1[71 + i] == r1[i]);
        assert(s2[71 + i] == r2[i]);
    }
    assert(r1 =~= r2);
    lemma_rights_name_injective(c1.rights, c2.rights);
}

impl Capability {
    /// Constructs a capability from its address bytes and rights bits.
    pub fn new(addr: Vec<u8>, rights: u8) -> (c: Capability)
        requires
            addr@.len() == ADDR_LEN,
            rights < 8,
        ensures
            c@ == (CapModel { addr: addr@, rights }),
            c@.wf(),
    {
        Capability { addr, rights }
    }

    /// An exact copy of this capability; tokens are copyable by design.
    pub fn duplicate(&self) -> (c: Capability)
        ensures
            c@ == self@,
    {
        let mut addr: Vec<u8> = Vec::new();
        let mut i: usize = 0;
        while i < self.addr.len()
            invariant
                i <= self.addr.len(),
                addr@ == self.addr@.take(i as int),
            decreases self.addr.len() - i,
        {
            addr.push(self.addr[i]);
            i += 1;
        }
        proof {
            assert(addr@ =~= self.addr@);
        }
        Capability { addr, rights: self.rights }
    }

    /// Whether this is the host's sentinel "zero" capability.
    pub fn is_zero(&self) -> (b: bool)
        ensures
            b == self@.is_zero(),
    {
        if self.rights != 0 {
            return false;
        }
        let mut i: usize = 0;
        while i < self.addr.len()
            invariant
                i <= self.addr.len(),
                self.rights == 0,
                forall|j: int| 0 <= j < i ==> self.addr@[j] == 0,
            decreases self.addr.len() - i,
        {
            if self.addr[i] != 0 {
                proof {
                    assert(self@.addr[i as int] != 0);
                }
                return false;
            }
            i += 1;
        }
        true
    }

    /// The capability's canonical textual form, used as a stable name when
    /// storing it under a named key.
    ///
    /// Relies on the `Display` rendering of `casper_types::URef` (and,
    /// through it, of `casper_types::AccessRights`): the fixed prefix, the
    /// lowercase hex of the address (two digits per byte, high nibble
    /// first), a separator, the rights name, and the closing parenthesis —
    /// exactly [`cap_name_of`], a function of the address bytes and the
    /// rights bits alone.
    #[verifier::external_body]
    pub fn render_name(&self) -> (s: String)
        requires
            self@.wf(),
        ensures
            s@ == cap_name_of(self@.addr, self@.rights),
    {
        let mut addr = [0u8; 32];
        addr.copy_from_slice(&self.addr);
        let rights = casper_types::AccessRights::from_bits_truncate(self.rights);
        casper_types::URef::new(addr, rights).to_string()
    }
}

/// Mathematical model of an [`AccountId`]: the account-hash bytes.
pub type AccountModel = Seq<u8>;

/// The platform-defined identifier of an account: the 32-byte account hash
/// the host derives from the account's public key. The derivation happens
/// at the host boundary; the protocol logic only compares and stores these.
pub struct AccountId {
    /// The 32-byte account hash.
    pub bytes: Vec<u8>,
}

impl View for AccountId {
    type V = AccountModel;

    open spec fn view(&self) -> AccountModel {
        self.bytes@
    }
}

impl AccountId {
    /// A well-formed account identifier is exactly 32 bytes.
    pub open spec fn wf(self) -> bool {
        self@.len() == ADDR_LEN
    }

    /// Constructs an account identifier from its hash bytes.
    pub fn new(bytes: Vec<u8>) -> (a: AccountId)
        requires
            bytes@.len() == ADDR_LEN,
        ensures
            a@ == bytes@,
            a.wf(),
    {
        AccountId { bytes }
    }

    /// An exact copy of this identifier.
    pub fn duplicate(&self) -> (a: AccountId)
        ensures
            a@ == self@,
    {
        let mut bytes: Vec<u8> = Vec::new();
        let mut i: usize = 0;
        while i < self.bytes.len()
            invariant
                i <= self.bytes.len(),
                bytes@ == self.bytes@.take(i as int),
            decreases self.bytes.len() - i,
        {
            bytes.push(self.bytes[i]);
            i += 1;
        }
        proof {
            assert(bytes@ =~= self.bytes@);
        }
        AccountId { bytes }
    }

    /// Whether two identifiers name the same account.
    pub fn same_account(&self, other: &AccountId) -> (b: bool)
        ensures
            b == (self@ == other@),
    {
        if self.bytes.len() != other.bytes.len() {
            proof {
                assert(self@ != other@);
            }
            return false;
        }
        let mut i: usize = 0;
        while i < self.bytes.len()
            invariant
                i <= self.bytes.len(),
                self.bytes@.len() == other.bytes@.len(),
                forall|j: int| 0 <= j < i ==> self.bytes@[j] == other.bytes@[j],
            decreases self.bytes.len() - i,
        {
            if self.bytes[i] != other.bytes[i] {
                return false;
            }
            i += 1;
        }
        proof {
            assert(self@ =~= other@);
        }
        true
    }
}

} // verus!
