//! Fixed-width identities and names, comparison operators and rule kinds.
use vstd::prelude::*;
use vstd::utf8::*;

verus! {

/// Width of an identity in bytes.
pub const SIZE_PUBKEY: usize = 32;

/// Width of a name (rule-set name, operation name) in bytes.
pub const NAME_LENGTH: usize = 32;

/// Width of a payload field name inside a rule in bytes.
pub const FIELD_LENGTH: usize = 32;

/// Width of a `u64` in bytes.
pub const SIZE_U64: usize = 8;

/// A 32-byte public identity: the address of a record or of the program owning it.
#[derive(Clone, Copy, Debug, PartialEq, Eq)]
pub struct Pubkey {
    pub bytes: [u8; 32],
}

impl Pubkey {
    pub fn new_from_array(bytes: [u8; 32]) -> (r: Pubkey)
        ensures
            r.bytes@ == bytes@,
    {
        Pubkey { bytes }
    }

    pub fn to_bytes(&self) -> (r: [u8; 32])
        ensures
            r@ == self.bytes@,
    {
        self.bytes
    }

    /// Whether both identities hold the same bytes.
    pub fn same(&self, other: &Pubkey) -> (r: bool)
        ensures
            r == (self.bytes@ == other.bytes@),
    {
        let mut i: usize = 0;
        while i < 32
            invariant
                i <= 32,
                self.bytes@.len() == 32,
                other.bytes@.len() == 32,
                forall|j: int| 0 <= j < i ==> self.bytes@[j] == other.bytes@[j],
            decreases 32 - i,
        {
            if self.bytes[i] != other.bytes[i] {
                return false;
            }
            i = i + 1;
        }
        assert(self.bytes@ =~= other.bytes@);
        true
    }
}

impl Default for Pubkey {
    fn default() -> (r: Pubkey)
        ensures
            r.bytes@ == Seq::new(32, |i: int| 0u8),
    {
        let r = Pubkey { bytes: [0u8; 32] };
        assert(r.bytes@ =~= Seq::new(32, |i: int| 0u8));
        r
    }
}

/// `b` followed by zero bytes up to 32 bytes.
pub open spec fn pad32(b: Seq<u8>) -> Seq<u8> {
    b + Seq::new((32 - b.len()) as nat, |i: int| 0u8)
}

/// A 32-byte, zero-padded, human-readable name.
#[derive(Clone, Copy, Debug, PartialEq, Eq)]
pub struct Name {
    pub value: [u8; 32],
}

impl Name {
    /// The name holding the UTF-8 bytes of `s`, zero-padded.
    pub fn new(s: &str) -> (r: Name)
        requires
            text_bytes(s@).len() <= 32,
        ensures
            r.value@ == pad32(text_bytes(s@)),
    {
        Name { value: pad_bytes(s.as_bytes()) }
    }

    /// Whether the name holds exactly the bytes of `s`, zero-padded.
    pub fn matches(&self, s: &[u8]) -> (r: bool)
        ensures
            r == (s@.len() <= 32 && self.value@ == pad32(s@)),
    {
        if s.len() > 32 {
            return false;
        }
        let padded = pad_bytes(s);
        let mut i: usize = 0;
        while i < 32
            invariant
                i <= 32,
                self.value@.len() == 32,
                padded@ == pad32(s@),
                forall|j: int| 0 <= j < i ==> self.value@[j] == padded@[j],
            decreases 32 - i,
        {
            if self.value[i] != padded[i] {
                return false;
            }
            i = i + 1;
        }
        assert(self.value@ =~= padded@);
        true
    }
}

/// The bytes of `b` followed by zeros, 32 bytes in all.
pub fn pad_bytes(b: &[u8]) -> (r: [u8; 32])
    requires
        b@.len() <= 32,
    ensures
        r@ == pad32(b@),
{
    let mut value = [0u8; 32];
    let mut i: usize = 0;
    while i < b.len()
        invariant
            b@.len() <= 32,
            i <= b@.len(),
            value@.len() == 32,
            forall|j: int| 0 <= j < i ==> value@[j] == b@[j],
            forall|j: int| i <= j < 32 ==> value@[j] == 0,
        decreases b@.len() - i,
    {
        value[i] = b[i];
        i = i + 1;
    }
    assert(value@ =~= pad32(b@));
    value
}

/// Copies 32 bytes of `b` from `pos` on.
pub fn read_array32(b: &[u8], pos: usize) -> (r: [u8; 32])
    requires
        pos + 32 <= b@.len(),
    ensures
        r@ == b@.subrange(pos as int, pos + 32),
{
    let mut value = [0u8; 32];
    let mut i: usize = 0;
    while i < 32
        invariant
            pos + 32 <= b@.len(),
            i <= 32,
            value@.len() == 32,
            forall|j: int| 0 <= j < i ==> value@[j] == b@[pos + j],
        decreases 32 - i,
    {
        let len = b.len();
        assert(pos + i < len);
        value[i] = b[pos + i];
        i = i + 1;
    }
    assert(value@ =~= b@.subrange(pos as int, pos + 32));
    value
}

/// How an `Amount` rule compares the payload number with its constant.
#[derive(Clone, Copy, Debug, PartialEq, Eq, Structural)]
pub enum CompareOp {
    Lt,
    LtEq,
    Eq,
    GtEq,
    Gt,
}

impl CompareOp {
    /// The number under which the operator is encoded.
    pub open spec fn spec_code(self) -> u64 {
        match self {
            CompareOp::Lt => 0,
            CompareOp::LtEq => 1,
            CompareOp::Eq => 2,
            CompareOp::GtEq => 3,
            CompareOp::Gt => 4,
        }
    }

    /// The operator encoded as `c`, if any.
    pub open spec fn spec_from_code(c: u64) -> Option<CompareOp> {
        if c == 0 {
            Some(CompareOp::Lt)
        } else if c == 1 {
            Some(CompareOp::LtEq)
        } else if c == 2 {
            Some(CompareOp::Eq)
        } else if c == 3 {
            Some(CompareOp::GtEq)
        } else if c == 4 {
            Some(CompareOp::Gt)
        } else {
            None
        }
    }

    /// Whether `value <op> amount` holds.
    pub open spec fn holds(self, value: u64, amount: u64) -> bool {
        match self {
            CompareOp::Lt => value < amount,
            CompareOp::LtEq => value <= amount,
            CompareOp::Eq => value == amount,
            CompareOp::GtEq => value >= amount,
            CompareOp::Gt => value > amount,
        }
    }

    #[verifier::when_used_as_spec(spec_code)]
    pub fn code(self) -> (r: u64)
        ensures
            r == self.spec_code(),
    {
        match self {
            CompareOp::Lt => 0,
            CompareOp::LtEq => 1,
            CompareOp::Eq => 2,
            CompareOp::GtEq => 3,
            CompareOp::Gt => 4,
        }
    }

    #[verifier::when_used_as_spec(spec_from_code)]
    pub fn from_code(c: u64) -> (r: Option<CompareOp>)
        ensures
            r == CompareOp::spec_from_code(c),
    {
        if c == 0 {
            Some(CompareOp::Lt)
        } else if c == 1 {
            Some(CompareOp::LtEq)
        } else if c == 2 {
            Some(CompareOp::Eq)
        } else if c == 3 {
            Some(CompareOp::GtEq)
        } else if c == 4 {
            Some(CompareOp::Gt)
        } else {
            None
        }
    }

    /// Compares `value` with `amount`.
    pub fn compare(self, value: u64, amount: u64) -> (r: bool)
        ensures
            r == self.holds(value, amount),
    {
        match self {
            CompareOp::Lt => value < amount,
            CompareOp::LtEq => value <= amount,
            CompareOp::Eq => value == amount,
            CompareOp::GtEq => value >= amount,
            CompareOp::Gt => value > amount,
        }
    }
}

pub proof fn lemma_compare_op_code(op: CompareOp)
    ensures
        CompareOp::spec_from_code(op.spec_code()) == Some(op),
{
}

/// The closed set of rule kinds.
#[derive(Clone, Copy, Debug, PartialEq, Eq, Structural)]
pub enum AssertType {
    All,
    Amount,
    Any,
    IsWallet,
    Namespace,
    ProgramOwnedList,
}

impl AssertType {
    /// The number under which the kind is encoded in a rule header.
    pub open spec fn spec_code(self) -> u32 {
        match self {
            AssertType::All => 2,
            AssertType::Amount => 3,
            AssertType::Any => 4,
            AssertType::IsWallet => 6,
            AssertType::Namespace => 7,
            AssertType::ProgramOwnedList => 12,
        }
    }

    /// The kind encoded as `c`, if any.
    pub open spec fn spec_from_code(c: u32) -> Option<AssertType> {
        if c == 2 {
            Some(AssertType::All)
        } else if c == 3 {
            Some(AssertType::Amount)
        } else if c == 4 {
            Some(AssertType::Any)
        } else if c == 6 {
            Some(AssertType::IsWallet)
        } else if c == 7 {
            Some(AssertType::Namespace)
        } else if c == 12 {
            Some(AssertType::ProgramOwnedList)
        } else {
            None
        }
    }

    #[verifier::when_used_as_spec(spec_code)]
    pub fn code(self) -> (r: u32)
        ensures
            r == self.spec_code(),
    {
        match self {
            AssertType::All => 2,
            AssertType::Amount => 3,
            AssertType::Any => 4,
            AssertType::IsWallet => 6,
            AssertType::Namespace => 7,
            AssertType::ProgramOwnedList => 12,
        }
    }

    #[verifier::when_used_as_spec(spec_from_code)]
    pub fn from_code(c: u32) -> (r: Option<AssertType>)
        ensures
            r == AssertType::spec_from_code(c),
    {
        if c == 2 {
            Some(AssertType::All)
        } else if c == 3 {
            Some(AssertType::Amount)
        } else if c == 4 {
            Some(AssertType::Any)
        } else if c == 6 {
            Some(AssertType::IsWallet)
        } else if c == 7 {
            Some(AssertType::Namespace)
        } else if c == 12 {
            Some(AssertType::ProgramOwnedList)
        } else {
            None
        }
    }
}

pub proof fn lemma_assert_type_code(t: AssertType)
    ensures
        AssertType::spec_from_code(t.spec_code()) == Some(t),
{
}

/// The UTF-8 bytes of a string.
pub open spec fn text_bytes(s: Seq<char>) -> Seq<u8> {
    encode_utf8(s)
}

} // verus!
