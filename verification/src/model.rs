//! The identifiers and enums that the wire format is written in terms of.
use vstd::arithmetic::power::*;
use vstd::prelude::*;
use vstd::string::*;

use crate::text;

verus! {

// ---------------------------------------------------------------------------
// Identifiers
// ---------------------------------------------------------------------------

/// The hexadecimal digit at place `k` of 32, the most significant first.
pub open spec fn nibble(id: u128, k: nat) -> int {
    (id as int / pow(16, (31 - k) as nat)) % 16
}

/// A digit below sixteen, in lower-case hexadecimal.
pub open spec fn hex_digit(n: int) -> char {
    if n < 10 {
        (48 + n) as char
    } else {
        (87 + n) as char
    }
}

/// The places of the four hyphens.
pub open spec fn hyphen_at(i: int) -> bool {
    i == 8 || i == 13 || i == 18 || i == 23
}

/// How many hyphens stand before place `i`.
pub open spec fn hyphens_before(i: int) -> int {
    if i <= 8 {
        0
    } else if i <= 13 {
        1
    } else if i <= 18 {
        2
    } else if i <= 23 {
        3
    } else {
        4
    }
}

/// An identifier in text: 32 digits in groups of 8, 4, 4, 4 and 12.
pub open spec fn hyphenated(id: u128) -> Seq<char> {
    Seq::new(
        36,
        |i: int|
            if hyphen_at(i) {
                '-'
            } else {
                hex_digit(nibble(id, (i - hyphens_before(i)) as nat))
            },
    )
}

/// The identifier that `uuid::Uuid::parse_str` reads in a text.
pub uninterp spec fn uuid_of(s: Seq<char>) -> Option<u128>;

/// `uuid::Uuid::to_string`: the hyphenated form, in lower case.
#[verifier::external_body]
fn uuid_text(id: u128) -> (r: String)
    ensures
        r@ == hyphenated(id),
{
    uuid::Uuid::from_u128(id).to_string()
}

/// `uuid::Uuid::parse_str`: what it accepts depends on the text alone, and it
/// accepts the hyphenated form of every identifier.
#[verifier::external_body]
fn uuid_parse(s: &str) -> (r: Option<u128>)
    ensures
        r == uuid_of(s@),
        forall|id: u128| s@ == #[trigger] hyphenated(id) ==> r == Some(id),
{
    uuid::Uuid::parse_str(s).ok().map(|id| id.as_u128())
}

/// `uuid::Uuid::now_v7`: an identifier of version 7, made of the time and of
/// chance.
#[verifier::external_body]
fn uuid_now() -> (r: u128)
    ensures
        time_ordered(r),
{
    uuid::Uuid::now_v7().as_u128()
}

/// The version and the variant of an identifier are those of version 7.
pub open spec fn time_ordered(id: u128) -> bool {
    &&& (id as int / 0x1000_0000_0000_0000_0000) % 16 == 7
    &&& (id as int / 0x4000_0000_0000_0000) % 4 == 2
}

/// The generator was asked for an identifier, and made this one.
pub closed spec fn made(id: u128) -> bool {
    call_ensures(uuid_now, (), id)
}

/// The platform's id for one coding session.
#[derive(Debug, Clone, Copy, PartialEq, Eq, PartialOrd, Ord, Hash, Structural)]
pub struct AgentSessionId(pub u128);

/// The platform's id for one published memory.
#[derive(Debug, Clone, Copy, PartialEq, Eq, PartialOrd, Ord, Hash, Structural)]
pub struct AgentMemoryId(pub u128);

/// The platform's id for one message between agents.
#[derive(Debug, Clone, Copy, PartialEq, Eq, PartialOrd, Ord, Hash, Structural)]
pub struct AgentMessageId(pub u128);

impl AgentSessionId {
    /// A fresh, time-ordered identifier.
    pub fn new() -> (r: AgentSessionId)
        ensures
            made(r.0),
            time_ordered(r.0),
    {
        AgentSessionId(uuid_now())
    }

    /// The identifier in text.
    pub fn to_text(&self) -> (r: String)
        ensures
            r@ == hyphenated(self.0),
    {
        uuid_text(self.0)
    }

    /// The identifier that a text holds. What [`AgentSessionId::to_text`] wrote
    /// is read back.
    pub fn parse(s: &str) -> (r: Option<AgentSessionId>)
        ensures
            r == match uuid_of(s@) {
                Some(id) => Some(AgentSessionId(id)),
                None => None,
            },
            forall|id: u128| s@ == #[trigger] hyphenated(id) ==> r == Some(AgentSessionId(id)),
    {
        match uuid_parse(s) {
            Some(id) => Some(AgentSessionId(id)),
            None => None,
        }
    }
}

impl AgentMemoryId {
    /// A fresh, time-ordered identifier.
    pub fn new() -> (r: AgentMemoryId)
        ensures
            made(r.0),
            time_ordered(r.0),
    {
        AgentMemoryId(uuid_now())
    }

    /// The identifier in text.
    pub fn to_text(&self) -> (r: String)
        ensures
            r@ == hyphenated(self.0),
    {
        uuid_text(self.0)
    }

    /// The identifier that a text holds. What [`AgentMemoryId::to_text`] wrote
    /// is read back.
    pub fn parse(s: &str) -> (r: Option<AgentMemoryId>)
        ensures
            r == match uuid_of(s@) {
                Some(id) => Some(AgentMemoryId(id)),
                None => None,
            },
            forall|id: u128| s@ == #[trigger] hyphenated(id) ==> r == Some(AgentMemoryId(id)),
    {
        match uuid_parse(s) {
            Some(id) => Some(AgentMemoryId(id)),
            None => None,
        }
    }
}

impl AgentMessageId {
    /// A fresh, time-ordered identifier.
    pub fn new() -> (r: AgentMessageId)
        ensures
            made(r.0),
            time_ordered(r.0),
    {
        AgentMessageId(uuid_now())
    }

    /// The identifier in text.
    pub fn to_text(&self) -> (r: String)
        ensures
            r@ == hyphenated(self.0),
    {
        uuid_text(self.0)
    }

    /// The identifier that a text holds. What [`AgentMessageId::to_text`] wrote
    /// is read back.
    pub fn parse(s: &str) -> (r: Option<AgentMessageId>)
        ensures
            r == match uuid_of(s@) {
                Some(id) => Some(AgentMessageId(id)),
                None => None,
            },
            forall|id: u128| s@ == #[trigger] hyphenated(id) ==> r == Some(AgentMessageId(id)),
    {
        match uuid_parse(s) {
            Some(id) => Some(AgentMessageId(id)),
            None => None,
        }
    }
}

// ---------------------------------------------------------------------------
// Memory types
// ---------------------------------------------------------------------------

/// What kind of knowledge a memory carries, as the publishing agent chose it.
#[derive(Debug, Clone, Copy, PartialEq, Eq, Hash, Structural)]
pub enum MemoryType {
    /// Something that turned out to be true and was not written down.
    Discovery,
    /// A choice the team made and has to keep to.
    Decision,
    /// Something that will bite whoever touches it next.
    Warning,
    /// How this codebase does a thing, for the next person who adds one.
    Convention,
    /// How a part of the system is put together.
    Architecture,
    /// A defect that exists right now and is not fixed yet.
    Bug,
    /// Something nobody has answered yet, published so that somebody can.
    Question,
}

impl MemoryType {
    /// Every variant, in the order in which the platform lists them.
    pub const ALL: [MemoryType; 7] = [
        MemoryType::Discovery,
        MemoryType::Decision,
        MemoryType::Warning,
        MemoryType::Convention,
        MemoryType::Architecture,
        MemoryType::Bug,
        MemoryType::Question,
    ];

    /// The word that the gateway stores.
    pub open spec fn name(self) -> Seq<char> {
        match self {
            MemoryType::Discovery => "discovery"@,
            MemoryType::Decision => "decision"@,
            MemoryType::Warning => "warning"@,
            MemoryType::Convention => "convention"@,
            MemoryType::Architecture => "architecture"@,
            MemoryType::Bug => "bug"@,
            MemoryType::Question => "question"@,
        }
    }

    /// No two kinds are stored under one word.
    pub proof fn names_differ(a: MemoryType, b: MemoryType)
        ensures
            a.name() == b.name() ==> a == b,
    {
        reveal_strlit("discovery");
        reveal_strlit("decision");
        reveal_strlit("warning");
        reveal_strlit("convention");
        reveal_strlit("architecture");
        reveal_strlit("bug");
        reveal_strlit("question");
        assert("decision"@[0] != "question"@[0]);
        assert(a.name() == b.name() ==> a.name().len() == b.name().len() && a.name()[0]
            == b.name()[0]);
    }

    /// The word that the gateway stores.
    pub fn as_str(&self) -> (r: &'static str)
        ensures
            r@ == self.name(),
    {
        match self {
            MemoryType::Discovery => "discovery",
            MemoryType::Decision => "decision",
            MemoryType::Warning => "warning",
            MemoryType::Convention => "convention",
            MemoryType::Architecture => "architecture",
            MemoryType::Bug => "bug",
            MemoryType::Question => "question",
        }
    }

    /// The kind that is stored under a word: every kind under its own, and
    /// none under any other word.
    pub fn parse(s: &str) -> (r: Option<MemoryType>)
        ensures
            r matches Some(kind) ==> kind.name() == s@,
            forall|kind: MemoryType| #[trigger] kind.name() == s@ ==> r == Some(kind),
    {
        let mut i: usize = 0;
        while i < 7
            invariant
                i <= 7,
                forall|j: int| 0 <= j < i ==> MemoryType::ALL[j].name() != s@,
            decreases 7 - i,
        {
            let kind: MemoryType = MemoryType::ALL[i];
            if text::same(kind.as_str(), s) {
                proof {
                    assert forall|other: MemoryType| #[trigger] other.name() == s@ implies other
                        == kind by {
                        MemoryType::names_differ(other, kind);
                    }
                }
                return Some(kind);
            }
            i = i + 1;
        }
        proof {
            assert forall|kind: MemoryType| #[trigger] kind.name() != s@ by {
                assert(MemoryType::ALL[0] == MemoryType::Discovery);
                assert(MemoryType::ALL[1] == MemoryType::Decision);
                assert(MemoryType::ALL[2] == MemoryType::Warning);
                assert(MemoryType::ALL[3] == MemoryType::Convention);
                assert(MemoryType::ALL[4] == MemoryType::Architecture);
                assert(MemoryType::ALL[5] == MemoryType::Bug);
                assert(MemoryType::ALL[6] == MemoryType::Question);
            }
        }
        None
    }
}

proof fn lemma_same_digits(a: u128, b: u128, m: nat)
    requires
        m <= 32,
        forall|k: nat| k < 32 ==> #[trigger] nibble(a, k) == nibble(b, k),
    ensures
        a as int / pow(16, m) == b as int / pow(16, m),
    decreases 32 - m,
{
    lemma_pow_positive(16, m);
    if m == 32 {
        assert(pow(16, 32) == 0x1_0000_0000_0000_0000_0000_0000_0000_0000) by {
            reveal_with_fuel(pow, 33);
        }
    } else {
        lemma_same_digits(a, b, m + 1);
        lemma_pow_positive(16, m + 1);
        lemma_pow_adds(16, m, 1);
        lemma_pow1(16);
        let p = pow(16, m);
        assert(pow(16, m + 1) == p * 16);
        vstd::arithmetic::div_mod::lemma_div_denominator(a as int, p, 16);
        vstd::arithmetic::div_mod::lemma_div_denominator(b as int, p, 16);
        let k = (31 - m) as nat;
        assert((31 - k) as nat == m);
        assert(nibble(a, k) == nibble(b, k));
        let (x, y) = (a as int / p, b as int / p);
        assert(x == 16 * (x / 16) + x % 16);
        assert(y == 16 * (y / 16) + y % 16);
    }
}

/// Two identifiers are two texts.
pub proof fn two_identifiers_are_two_texts(a: u128, b: u128)
    ensures
        hyphenated(a) == hyphenated(b) <==> a == b,
{
    if hyphenated(a) == hyphenated(b) {
        assert forall|k: nat| k < 32 implies #[trigger] nibble(a, k) == nibble(b, k) by {
            let i: int = if k < 8 {
                k as int
            } else if k < 12 {
                (k + 1) as int
            } else if k < 16 {
                (k + 2) as int
            } else if k < 20 {
                (k + 3) as int
            } else {
                (k + 4) as int
            };
            assert(!hyphen_at(i));
            assert((i - hyphens_before(i)) as nat == k);
            assert(hyphenated(a)[i] == hex_digit(nibble(a, k)));
            assert(hyphenated(b)[i] == hex_digit(nibble(b, k)));
            assert(0 <= nibble(a, k) < 16);
            assert(0 <= nibble(b, k) < 16);
        }
        lemma_same_digits(a, b, 0);
        lemma_pow0(16);
    }
}

} // verus!
