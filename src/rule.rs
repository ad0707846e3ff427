//! Rule nodes: an 8-byte header (kind, payload length) followed by the payload of a
//! leaf predicate or of a boolean combinator over nested nodes.
use crate::bytes::{chunks32, concat_all, le_u32, le_u64, read_u32, read_u64, u32_le, u64_le};
use crate::error::RuleSetError;
use crate::types::{read_array32, AssertType, CompareOp, Name, Pubkey};
use vstd::prelude::*;

verus! {

/// Size of a rule node's header in bytes.
pub const HEADER_SECTION: usize = 8;

/// Payload size of an `Amount` node: amount, operator and field.
pub const AMOUNT_PAYLOAD_LENGTH: usize = 48;

/// The meaning of a rule node.
pub enum RuleModel {
    /// Passes when the payload number under `field` compares with `amount` by `operator`.
    Amount { amount: u64, operator: CompareOp, field: Seq<u8> },
    /// Passes when one of `rules` passes.
    Any { rules: Seq<RuleModel> },
    /// Passes when every one of `rules` passes.
    All { rules: Seq<RuleModel> },
    /// Passes when a record named under one of the keys of `field` is owned by one of `programs`.
    ProgramOwnedList { field: Seq<u8>, programs: Seq<Seq<u8>> },
    /// Whether the record under `field` has no owning program (not implemented).
    IsWallet { field: Seq<u8> },
    /// Defers to the rule of the operation's namespace.
    Namespace,
}

/// The kind under which a node is encoded.
pub open spec fn kind_of(m: RuleModel) -> AssertType {
    match m {
        RuleModel::Amount { .. } => AssertType::Amount,
        RuleModel::Any { .. } => AssertType::Any,
        RuleModel::All { .. } => AssertType::All,
        RuleModel::ProgramOwnedList { .. } => AssertType::ProgramOwnedList,
        RuleModel::IsWallet { .. } => AssertType::IsWallet,
        RuleModel::Namespace => AssertType::Namespace,
    }
}

/// The encoding of a node: header, then payload.
pub open spec fn encode_rule(m: RuleModel) -> Seq<u8>
    decreases m,
{
    let p = match m {
        RuleModel::Amount { amount, operator, field } => u64_le(amount) + u64_le(
            operator.spec_code(),
        ) + field,
        RuleModel::Any { rules } => u64_le(rules.len() as u64) + encode_rules(rules),
        RuleModel::All { rules } => u64_le(rules.len() as u64) + encode_rules(rules),
        RuleModel::ProgramOwnedList { field, programs } => field + concat_all(programs),
        RuleModel::IsWallet { field } => field,
        RuleModel::Namespace => seq![],
    };
    u32_le(kind_of(m).spec_code()) + u32_le(p.len() as u32) + p
}

/// The encodings of `rs`, one after the other.
pub open spec fn encode_rules(rs: Seq<RuleModel>) -> Seq<u8>
    decreases rs,
{
    if rs.len() == 0 {
        seq![]
    } else {
        encode_rule(rs[0]) + encode_rules(rs.subrange(1, rs.len() as int))
    }
}

/// Whether a node can be encoded: fields are 32 bytes, identities 32 bytes, and every
/// payload length fits the header's 32 bits.
pub open spec fn rule_well_formed(m: RuleModel) -> bool
    decreases m,
{
    match m {
        RuleModel::Amount { field, .. } => field.len() == 32,
        RuleModel::Any { rules } => rules_well_formed(rules) && 8 + encode_rules(rules).len()
            <= u32::MAX,
        RuleModel::All { rules } => rules_well_formed(rules) && 8 + encode_rules(rules).len()
            <= u32::MAX,
        RuleModel::ProgramOwnedList { field, programs } => field.len() == 32 && (forall|i: int|
            0 <= i < programs.len() ==> (#[trigger] programs[i]).len() == 32) && 32 + 32
            * programs.len() <= u32::MAX,
        RuleModel::IsWallet { field } => field.len() == 32,
        RuleModel::Namespace => true,
    }
}

/// Whether every node of `rs` can be encoded.
pub open spec fn rules_well_formed(rs: Seq<RuleModel>) -> bool
    decreases rs,
{
    if rs.len() == 0 {
        true
    } else {
        rule_well_formed(rs[0]) && rules_well_formed(rs.subrange(1, rs.len() as int))
    }
}

/// Decodes the payload `p` of a leaf node of kind `kind`.
pub open spec fn parse_leaf(kind: AssertType, p: Seq<u8>) -> Result<RuleModel, RuleSetError> {
    match kind {
        AssertType::Amount => if p.len() != 48 {
            Err(RuleSetError::MalformedHeader)
        } else {
            match CompareOp::spec_from_code(le_u64(p.subrange(8, 16))) {
                Some(operator) => Ok(
                    RuleModel::Amount {
                        amount: le_u64(p.subrange(0, 8)),
                        operator,
                        field: p.subrange(16, 48),
                    },
                ),
                None => Err(RuleSetError::MalformedHeader),
            }
        },
        AssertType::ProgramOwnedList => if p.len() < 32 || (p.len() - 32) % 32 != 0 {
            Err(RuleSetError::MalformedHeader)
        } else {
            Ok(
                RuleModel::ProgramOwnedList {
                    field: p.subrange(0, 32),
                    programs: chunks32(p.subrange(32, p.len() as int)),
                },
            )
        },
        AssertType::IsWallet => if p.len() != 32 {
            Err(RuleSetError::MalformedHeader)
        } else {
            Ok(RuleModel::IsWallet { field: p })
        },
        AssertType::Namespace => if p.len() != 0 {
            Err(RuleSetError::MalformedHeader)
        } else {
            Ok(RuleModel::Namespace)
        },
        _ => Err(RuleSetError::MalformedHeader),
    }
}

/// Decodes the node at the start of `s`; bytes after the node are not read.
pub open spec fn parse_rule(s: Seq<u8>) -> Result<RuleModel, RuleSetError>
    decreases s.len(), 0int,
{
    if s.len() < 8 {
        Err(RuleSetError::TruncatedBuffer)
    } else {
        let len = le_u32(s.subrange(4, 8));
        match AssertType::spec_from_code(le_u32(s.subrange(0, 4))) {
            None => Err(RuleSetError::MalformedHeader),
            Some(kind) => if s.len() - 8 < len {
                Err(RuleSetError::TruncatedBuffer)
            } else {
                let p = s.subrange(8, 8 + len);
                if kind == AssertType::Any || kind == AssertType::All {
                    if p.len() < 8 {
                        Err(RuleSetError::MalformedHeader)
                    } else {
                        match parse_rules(p.subrange(8, p.len() as int), le_u64(p.subrange(0, 8)) as nat) {
                            Ok(rules) => if kind == AssertType::Any {
                                Ok(RuleModel::Any { rules })
                            } else {
                                Ok(RuleModel::All { rules })
                            },
                            Err(e) => Err(e),
                        }
                    }
                } else {
                    parse_leaf(kind, p)
                }
            },
        }
    }
}

/// Decodes exactly `n` consecutive nodes that fill `w`.
pub open spec fn parse_rules(w: Seq<u8>, n: nat) -> Result<Seq<RuleModel>, RuleSetError>
    decreases w.len(), 1int,
{
    if n == 0 {
        if w.len() == 0 {
            Ok(seq![])
        } else {
            Err(RuleSetError::MalformedHeader)
        }
    } else {
        match parse_rule(w) {
            Err(e) => Err(e),
            Ok(m) => {
                let used = 8 + le_u32(w.subrange(4, 8));
                if used > w.len() {
                    Err(RuleSetError::TruncatedBuffer)
                } else {
                    match parse_rules(w.subrange(used, w.len() as int), (n - 1) as nat) {
                        Ok(rs) => Ok(seq![m] + rs),
                        Err(e) => Err(e),
                    }
                }
            },
        }
    }
}

/// A successfully decoded node lies within `s` and declares its own payload length.
pub proof fn lemma_parse_rule_bounds(s: Seq<u8>)
    requires
        parse_rule(s) is Ok,
    ensures
        s.len() >= 8,
        8 + le_u32(s.subrange(4, 8)) <= s.len(),
        AssertType::spec_from_code(le_u32(s.subrange(0, 4))) == Some(kind_of(parse_rule(s)->Ok_0)),
{
    let len = le_u32(s.subrange(4, 8));
    let kind = AssertType::spec_from_code(le_u32(s.subrange(0, 4)))->Some_0;
    let p = s.subrange(8, 8 + len);
    if kind != AssertType::Any && kind != AssertType::All {
        assert(kind_of(parse_leaf(kind, p)->Ok_0) == kind);
    }
}

/// The bytes of each identity of `ps`.
pub open spec fn pubkey_bytes(ps: Seq<Pubkey>) -> Seq<Seq<u8>> {
    Seq::new(ps.len(), |i: int| ps[i].bytes@)
}

/// A rule node's header: its kind and its payload length.
#[derive(Clone, Copy, Debug)]
pub struct Header {
    pub data: [u32; 2],
}

impl Header {
    /// The kind of the node, if the header names a known one.
    pub fn assert_type(&self) -> (r: Result<AssertType, RuleSetError>)
        ensures
            r == (match AssertType::spec_from_code(self.data@[0]) {
                Some(t) => Ok::<AssertType, RuleSetError>(t),
                None => Err(RuleSetError::MalformedHeader),
            }),
    {
        match AssertType::from_code(self.data[0]) {
            Some(t) => Ok(t),
            None => Err(RuleSetError::MalformedHeader),
        }
    }

    /// The payload length in bytes, the header excluded.
    pub fn length(&self) -> (r: usize)
        ensures
            r == self.data@[1],
    {
        self.data[1] as usize
    }
}

/// A decoded `Amount` node.
#[derive(Clone, Debug)]
pub struct Amount {
    pub amount: u64,
    pub operator: CompareOp,
    pub field: Name,
}

/// A decoded `Any` node: passes when one of its rules passes.
#[derive(Debug)]
pub struct Any {
    pub size: u64,
    pub rules: Vec<RuleV2>,
}

/// A decoded `All` node: passes when all of its rules pass.
#[derive(Debug)]
pub struct All {
    pub size: u64,
    pub rules: Vec<RuleV2>,
}

/// A decoded `ProgramOwnedList` node.
#[derive(Clone, Debug)]
pub struct ProgramOwnedList {
    pub field: Name,
    pub programs: Vec<Pubkey>,
}

/// A decoded `IsWallet` node.
#[derive(Clone, Debug)]
pub struct IsWallet {
    pub field: Name,
}

/// A decoded `Namespace` node.
#[derive(Clone, Debug)]
pub struct Namespace;

/// The payload of a decoded node, by kind.
#[derive(Debug)]
pub enum Assertion {
    Amount(Amount),
    Any(Any),
    All(All),
    ProgramOwnedList(ProgramOwnedList),
    IsWallet(IsWallet),
    Namespace(Namespace),
}

/// A decoded rule node: its header and its payload.
#[derive(Debug)]
pub struct RuleV2 {
    pub header: Header,
    pub data: Assertion,
}

impl RuleV2 {
    /// The meaning of the decoded node.
    pub open spec fn model(&self) -> RuleModel
        decreases self,
    {
        match &self.data {
            Assertion::Amount(a) => RuleModel::Amount {
                amount: a.amount,
                operator: a.operator,
                field: a.field.value@,
            },
            Assertion::Any(a) => RuleModel::Any { rules: rule_models(a.rules@) },
            Assertion::All(a) => RuleModel::All { rules: rule_models(a.rules@) },
            Assertion::ProgramOwnedList(p) => RuleModel::ProgramOwnedList {
                field: p.field.value@,
                programs: pubkey_bytes(p.programs@),
            },
            Assertion::IsWallet(w) => RuleModel::IsWallet { field: w.field.value@ },
            Assertion::Namespace(_) => RuleModel::Namespace,
        }
    }

    /// The kind of the node, as its payload shows it.
    pub fn assert_type(&self) -> (r: AssertType)
        ensures
            r == kind_of(self.model()),
    {
        match &self.data {
            Assertion::Amount(_) => AssertType::Amount,
            Assertion::Any(_) => AssertType::Any,
            Assertion::All(_) => AssertType::All,
            Assertion::ProgramOwnedList(_) => AssertType::ProgramOwnedList,
            Assertion::IsWallet(_) => AssertType::IsWallet,
            Assertion::Namespace(_) => AssertType::Namespace,
        }
    }

    /// The size of the node's encoding, header included.
    pub fn length(&self) -> (r: u64)
        ensures
            r == HEADER_SECTION + self.header.data@[1],
    {
        HEADER_SECTION as u64 + self.header.data[1] as u64
    }
}

/// The meanings of the decoded nodes `rs`.
pub open spec fn rule_models(rs: Seq<RuleV2>) -> Seq<RuleModel>
    decreases rs,
{
    Seq::new(
        rs.len(),
        |i: int|
            if 0 <= i < rs.len() {
                rs[i].model()
            } else {
                RuleModel::Namespace
            },
    )
}

/// `ms` put in front of the nodes of `r`, or the error of `r`.
pub open spec fn prepend(ms: Seq<RuleModel>, r: Result<Seq<RuleModel>, RuleSetError>) -> Result<
    Seq<RuleModel>,
    RuleSetError,
> {
    match r {
        Ok(rs) => Ok(ms + rs),
        Err(e) => Err(e),
    }
}

/// Whether `r` is what decoding should give when the specification says `expected`:
/// the same error, or a node with that meaning whose header holds its kind and the
/// length read from `s`.
pub open spec fn decoded_as(
    r: Result<RuleV2, RuleSetError>,
    expected: Result<RuleModel, RuleSetError>,
    s: Seq<u8>,
) -> bool {
    match expected {
        Ok(m) => r is Ok && r->Ok_0.model() == m && r->Ok_0.header.data@[0]
            == kind_of(m).spec_code() && r->Ok_0.header.data@[1] == le_u32(s.subrange(4, 8)),
        Err(e) => r == Err::<RuleV2, RuleSetError>(e),
    }
}

impl RuleV2 {
    /// Decodes the rule node at the start of `bytes`.
    pub fn from_bytes(bytes: &[u8]) -> (r: Result<RuleV2, RuleSetError>)
        ensures
            decoded_as(r, parse_rule(bytes@), bytes@),
    {
        assert(bytes@.subrange(0, bytes@.len() as int) =~= bytes@);
        parse_rule_at(bytes, 0, bytes.len())
    }
}

/// Decodes the node at `pos`, reading no byte at or after `end`.
pub fn parse_rule_at(buf: &[u8], pos: usize, end: usize) -> (r: Result<RuleV2, RuleSetError>)
    requires
        pos <= end <= buf@.len(),
    ensures
        decoded_as(r, parse_rule(buf@.subrange(pos as int, end as int)), buf@.subrange(pos as int, end as int)),
    decreases end - pos, 0nat,
{
    let ghost s = buf@.subrange(pos as int, end as int);
    if end - pos < HEADER_SECTION {
        return Err(RuleSetError::TruncatedBuffer);
    }
    let code = read_u32(buf, pos);
    let len = read_u32(buf, pos + 4);
    assert(s.subrange(0, 4) =~= buf@.subrange(pos as int, pos + 4));
    assert(s.subrange(4, 8) =~= buf@.subrange(pos + 4, pos + 8));
    let kind = match AssertType::from_code(code) {
        None => {
            return Err(RuleSetError::MalformedHeader);
        },
        Some(k) => k,
    };
    if end - pos - HEADER_SECTION < len as usize {
        return Err(RuleSetError::TruncatedBuffer);
    }
    let pstart = pos + HEADER_SECTION;
    let pend = pstart + len as usize;
    let ghost p = s.subrange(8, 8 + len);
    assert(p =~= buf@.subrange(pstart as int, pend as int));
    let header = Header { data: [code, len] };
    assert(header.data@[0] == code && header.data@[1] == len);
    match kind {
        AssertType::Any | AssertType::All => {
            let parsed = parse_combinator_at(buf, pstart, pend);
            match parsed {
                Err(e) => Err(e),
                Ok((n, rules)) => {
                    let data = if kind == AssertType::Any {
                        Assertion::Any(Any { size: n, rules })
                    } else {
                        Assertion::All(All { size: n, rules })
                    };
                    Ok(RuleV2 { header, data })
                },
            }
        },
        AssertType::Amount => {
            match parse_amount_at(buf, pstart, pend) {
                Err(e) => Err(e),
                Ok(a) => Ok(RuleV2 { header, data: Assertion::Amount(a) }),
            }
        },
        AssertType::ProgramOwnedList => {
            match parse_owned_list_at(buf, pstart, pend) {
                Err(e) => Err(e),
                Ok(l) => Ok(RuleV2 { header, data: Assertion::ProgramOwnedList(l) }),
            }
        },
        AssertType::IsWallet => {
            if len != 32 {
                return Err(RuleSetError::MalformedHeader);
            }
            let field = Name { value: read_array32(buf, pstart) };
            Ok(RuleV2 { header, data: Assertion::IsWallet(IsWallet { field }) })
        },
        AssertType::Namespace => {
            if len != 0 {
                return Err(RuleSetError::MalformedHeader);
            }
            Ok(RuleV2 { header, data: Assertion::Namespace(Namespace) })
        },
    }
}

/// Decodes the payload of a combinator: its child count, then exactly that many nodes.
pub open spec fn parse_combinator(p: Seq<u8>) -> Result<Seq<RuleModel>, RuleSetError> {
    if p.len() < 8 {
        Err(RuleSetError::MalformedHeader)
    } else {
        parse_rules(p.subrange(8, p.len() as int), le_u64(p.subrange(0, 8)) as nat)
    }
}

/// Whether `r` is what decoding a combinator payload should give when the
/// specification says `expected`.
pub open spec fn children_as(
    r: Result<(u64, Vec<RuleV2>), RuleSetError>,
    expected: Result<Seq<RuleModel>, RuleSetError>,
) -> bool {
    match expected {
        Ok(rs) => r is Ok && rule_models(r->Ok_0.1@) == rs && r->Ok_0.0 == rs.len(),
        Err(e) => r == Err::<(u64, Vec<RuleV2>), RuleSetError>(e),
    }
}

/// Decodes the combinator payload between `start` and `end`.
fn parse_combinator_at(buf: &[u8], start: usize, end: usize) -> (r: Result<(u64, Vec<RuleV2>), RuleSetError>)
    requires
        start <= end <= buf@.len(),
    ensures
        children_as(r, parse_combinator(buf@.subrange(start as int, end as int))),
    decreases end - start, 1nat,
{
    let ghost p = buf@.subrange(start as int, end as int);
    if end - start < 8 {
        return Err(RuleSetError::MalformedHeader);
    }
    let n = read_u64(buf, start);
    assert(p.subrange(0, 8) =~= buf@.subrange(start as int, start + 8));
    assert(p.subrange(8, p.len() as int) =~= buf@.subrange(start + 8, end as int));
    let mut rules: Vec<RuleV2> = Vec::new();
    let mut c: usize = start + 8;
    let mut k: u64 = 0;
    assert(rule_models(rules@) + Seq::<RuleModel>::empty() =~= Seq::<RuleModel>::empty());
    assert(Seq::<RuleModel>::empty() =~= rule_models(rules@));
    assert(forall|rs: Seq<RuleModel>| Seq::<RuleModel>::empty() + rs =~= rs);
    while k < n
        invariant
            start <= end <= buf@.len(),
            start + 8 <= c <= end,
            k <= n,
            rules@.len() == k,
            p == buf@.subrange(start as int, end as int),
            parse_combinator(p) == parse_rules(buf@.subrange(start + 8, end as int), n as nat),
            parse_rules(buf@.subrange(start + 8, end as int), n as nat) == prepend(
                rule_models(rules@),
                parse_rules(buf@.subrange(c as int, end as int), (n - k) as nat),
            ),
        decreases n - k,
    {
        let ghost w = buf@.subrange(c as int, end as int);
        let child = parse_rule_at(buf, c, end);
        match child {
            Err(e) => {
                assert(parse_rules(w, (n - k) as nat) == Err::<Seq<RuleModel>, RuleSetError>(e));
                return Err(e);
            },
            Ok(rule) => {
                proof {
                    lemma_parse_rule_bounds(w);
                }
                let used = HEADER_SECTION + rule.header.length();
                let ghost m = rule.model();
                let ghost rest = w.subrange(used as int, w.len() as int);
                assert(rest =~= buf@.subrange(c + used, end as int));
                let ghost tail = parse_rules(rest, (n - k - 1) as nat);
                assert(parse_rules(w, (n - k) as nat) == prepend(seq![m], tail));
                let ghost old_models = rule_models(rules@);
                rules.push(rule);
                assert(rule_models(rules@) =~= old_models + seq![m]);
                assert(prepend(old_models, prepend(seq![m], tail)) == prepend(
                    old_models + seq![m],
                    tail,
                )) by {
                    match tail {
                        Ok(rs) => {
                            assert(old_models + (seq![m] + rs) =~= (old_models + seq![m]) + rs);
                        },
                        Err(_) => {},
                    }
                }
                c = c + used;
                k = k + 1;
            },
        }
    }
    if c != end {
        assert(parse_rules(buf@.subrange(c as int, end as int), 0) == Err::<
            Seq<RuleModel>,
            RuleSetError,
        >(RuleSetError::MalformedHeader));
        return Err(RuleSetError::MalformedHeader);
    }
    assert(buf@.subrange(c as int, end as int) =~= Seq::<u8>::empty());
    assert(rule_models(rules@) + Seq::<RuleModel>::empty() =~= rule_models(rules@));
    Ok((n, rules))
}

impl Amount {
    /// The meaning of the decoded node.
    pub open spec fn model(&self) -> RuleModel {
        RuleModel::Amount { amount: self.amount, operator: self.operator, field: self.field.value@ }
    }

    /// Decodes the payload of an `Amount` node.
    pub fn from_bytes(bytes: &[u8]) -> (r: Result<Amount, RuleSetError>)
        ensures
            match parse_leaf(AssertType::Amount, bytes@) {
                Ok(m) => r is Ok && r->Ok_0.model() == m,
                Err(e) => r == Err::<Amount, RuleSetError>(e),
            },
    {
        assert(bytes@.subrange(0, bytes@.len() as int) =~= bytes@);
        parse_amount_at(bytes, 0, bytes.len())
    }
}

impl ProgramOwnedList {
    /// The meaning of the decoded node.
    pub open spec fn model(&self) -> RuleModel {
        RuleModel::ProgramOwnedList { field: self.field.value@, programs: pubkey_bytes(self.programs@) }
    }

    /// Decodes the payload of a `ProgramOwnedList` node.
    pub fn from_bytes(bytes: &[u8]) -> (r: Result<ProgramOwnedList, RuleSetError>)
        ensures
            match parse_leaf(AssertType::ProgramOwnedList, bytes@) {
                Ok(m) => r is Ok && r->Ok_0.model() == m,
                Err(e) => r == Err::<ProgramOwnedList, RuleSetError>(e),
            },
    {
        assert(bytes@.subrange(0, bytes@.len() as int) =~= bytes@);
        parse_owned_list_at(bytes, 0, bytes.len())
    }
}

impl Any {
    /// Decodes the payload of an `Any` node.
    pub fn from_bytes(bytes: &[u8]) -> (r: Result<Any, RuleSetError>)
        ensures
            match parse_combinator(bytes@) {
                Ok(rs) => r is Ok && rule_models(r->Ok_0.rules@) == rs && r->Ok_0.size == rs.len(),
                Err(e) => r == Err::<Any, RuleSetError>(e),
            },
    {
        assert(bytes@.subrange(0, bytes@.len() as int) =~= bytes@);
        match parse_combinator_at(bytes, 0, bytes.len()) {
            Ok((size, rules)) => Ok(Any { size, rules }),
            Err(e) => Err(e),
        }
    }
}

impl All {
    /// Decodes the payload of an `All` node.
    pub fn from_bytes(bytes: &[u8]) -> (r: Result<All, RuleSetError>)
        ensures
            match parse_combinator(bytes@) {
                Ok(rs) => r is Ok && rule_models(r->Ok_0.rules@) == rs && r->Ok_0.size == rs.len(),
                Err(e) => r == Err::<All, RuleSetError>(e),
            },
    {
        assert(bytes@.subrange(0, bytes@.len() as int) =~= bytes@);
        match parse_combinator_at(bytes, 0, bytes.len()) {
            Ok((size, rules)) => Ok(All { size, rules }),
            Err(e) => Err(e),
        }
    }
}

/// Decodes the `Amount` payload between `start` and `end`.
fn parse_amount_at(buf: &[u8], start: usize, end: usize) -> (r: Result<Amount, RuleSetError>)
    requires
        start <= end <= buf@.len(),
    ensures
        match parse_leaf(AssertType::Amount, buf@.subrange(start as int, end as int)) {
            Ok(m) => r is Ok && r->Ok_0.model() == m,
            Err(e) => r == Err::<Amount, RuleSetError>(e),
        },
{
    let ghost p = buf@.subrange(start as int, end as int);
    if end - start != AMOUNT_PAYLOAD_LENGTH {
        return Err(RuleSetError::MalformedHeader);
    }
    let amount = read_u64(buf, start);
    let op = read_u64(buf, start + 8);
    assert(p.subrange(0, 8) =~= buf@.subrange(start as int, start + 8));
    assert(p.subrange(8, 16) =~= buf@.subrange(start + 8, start + 16));
    let operator = match CompareOp::from_code(op) {
        None => {
            return Err(RuleSetError::MalformedHeader);
        },
        Some(o) => o,
    };
    let field = Name { value: read_array32(buf, start + 16) };
    assert(p.subrange(16, 48) =~= buf@.subrange(start + 16, start + 48));
    Ok(Amount { amount, operator, field })
}

/// Decodes the `ProgramOwnedList` payload between `start` and `end`.
fn parse_owned_list_at(buf: &[u8], start: usize, end: usize) -> (r: Result<ProgramOwnedList, RuleSetError>)
    requires
        start <= end <= buf@.len(),
    ensures
        match parse_leaf(AssertType::ProgramOwnedList, buf@.subrange(start as int, end as int)) {
            Ok(m) => r is Ok && r->Ok_0.model() == m,
            Err(e) => r == Err::<ProgramOwnedList, RuleSetError>(e),
        },
{
    let ghost p = buf@.subrange(start as int, end as int);
    let len = end - start;
    if len < 32 || (len - 32) % 32 != 0 {
        return Err(RuleSetError::MalformedHeader);
    }
    let field = Name { value: read_array32(buf, start) };
    assert(p.subrange(0, 32) =~= buf@.subrange(start as int, start + 32));
    let count = (len - 32) / 32;
    let ghost q = p.subrange(32, p.len() as int);
    assert(32 * count == len - 32);
    let mut programs: Vec<Pubkey> = Vec::new();
    let mut i: usize = 0;
    while i < count
        invariant
            start <= end <= buf@.len(),
            len == end - start,
            32 * count == len - 32,
            p =~= buf@.subrange(start as int, end as int),
            q == p.subrange(32, p.len() as int),
            i <= count,
            programs@.len() == i,
            forall|j: int|
                0 <= j < i ==> (#[trigger] programs@[j]).bytes@ == q.subrange(32 * j, 32 * j + 32),
        decreases count - i,
    {
        let key = read_array32(buf, start + 32 + 32 * i);
        assert(key@ =~= q.subrange(32 * i, 32 * i + 32));
        programs.push(Pubkey { bytes: key });
        i = i + 1;
    }
    assert(pubkey_bytes(programs@) =~= chunks32(q));
    Ok(ProgramOwnedList { field, programs })
}

} // verus!
