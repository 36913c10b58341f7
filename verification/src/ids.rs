//! Stable identities of authored objects.
//!
//! Every identity is a random RFC 4122 version-4 UUID held as its 128 bits.

use vstd::prelude::*;
use vstd::string::StringExecFns;

verus! {

/// Draws a random version-4 UUID with `uuid::Uuid::new_v4` and returns its
/// 128 bits (`Uuid::as_u128`). The bits are random; the one fact stated is
/// that they are not the nil UUID, which holds because `new_v4` always sets
/// the version and variant bits.
#[verifier::external_body]
fn random_uuid_bits() -> (r: u128)
    ensures
        r != 0,
{
    uuid::Uuid::new_v4().as_u128()
}

/// The lowercase hexadecimal digit for `n`, below sixteen.
pub open spec fn hex_char(n: nat) -> char {
    if n < 10 {
        (48 + n) as char
    } else {
        (87 + n) as char
    }
}

/// Hexadecimal digit `k` of the 32 of `bits`, most significant first.
pub open spec fn uuid_nibble(bits: u128, k: int) -> nat {
    ((bits as nat) / vstd::arithmetic::power2::pow2((4 * (31 - k)) as nat)) % 16
}

/// The 32 lowercase hexadecimal digits of `bits`, most significant first.
pub open spec fn uuid_hex(bits: u128) -> Seq<char> {
    Seq::new(32, |k: int| hex_char(uuid_nibble(bits, k)))
}

/// The lowercase hyphenated text of the UUID with these 128 bits: its
/// hexadecimal digits in groups of 8, 4, 4, 4 and 12, joined by hyphens.
#[verifier::opaque]
pub open spec fn uuid_text(bits: u128) -> Seq<char> {
    let h = uuid_hex(bits);
    h.subrange(0, 8) + seq!['-'] + h.subrange(8, 12) + seq!['-'] + h.subrange(12, 16) + seq!['-'] + h.subrange(16, 20)
        + seq!['-'] + h.subrange(20, 32)
}

/// Renders identity bits with `uuid::Uuid::from_u128`, which reads them
/// most significant byte first, and the `Display` impl of `Uuid`, which
/// writes the lowercase hyphenated form (`uuid_text`).
#[verifier::external_body]
fn uuid_string(bits: u128) -> (r: String)
    ensures
        r@ == uuid_text(bits),
{
    uuid::Uuid::from_u128(bits).to_string()
}

/// The decimal digit `d`.
pub open spec fn digit_char(d: nat) -> char {
    (48 + d) as char
}

/// The decimal text of `n`, most significant digit first.
pub open spec fn decimal_text(n: nat) -> Seq<char>
    decreases n,
{
    if n < 10 {
        seq![digit_char(n)]
    } else {
        decimal_text(n / 10).push(digit_char(n % 10))
    }
}

/// The text of decimal digit `d`.
fn digit_str(d: u64) -> (r: &'static str)
    requires
        d < 10,
    ensures
        r@ == seq![digit_char(d as nat)],
{
    match d {
        0 => {
            proof {
                reveal_strlit("0");
            }
            "0"
        },
        1 => {
            proof {
                reveal_strlit("1");
            }
            "1"
        },
        2 => {
            proof {
                reveal_strlit("2");
            }
            "2"
        },
        3 => {
            proof {
                reveal_strlit("3");
            }
            "3"
        },
        4 => {
            proof {
                reveal_strlit("4");
            }
            "4"
        },
        5 => {
            proof {
                reveal_strlit("5");
            }
            "5"
        },
        6 => {
            proof {
                reveal_strlit("6");
            }
            "6"
        },
        7 => {
            proof {
                reveal_strlit("7");
            }
            "7"
        },
        8 => {
            proof {
                reveal_strlit("8");
            }
            "8"
        },
        9 => {
            proof {
                reveal_strlit("9");
            }
            "9"
        },
        _ => {
            proof {
                reveal_strlit("9");
            }
            "9"
        },
    }
}

/// The decimal text of `n`, most significant digit first.
fn decimal_string(n: u64) -> (r: String)
    ensures
        r@ == decimal_text(n as nat),
    decreases n,
{
    if n < 10 {
        let mut text = String::new();
        text.append(digit_str(n));
        assert(text@ =~= seq![digit_char(n as nat)]);
        text
    } else {
        let mut text = decimal_string(n / 10);
        text.append(digit_str(n % 10));
        text
    }
}

/// `prefix` followed by the text of identity `bits`.
pub fn text_with_id(prefix: &str, bits: u128) -> (r: String)
    ensures
        r@ == prefix@ + uuid_text(bits),
{
    let mut text = <String as vstd::string::StringExecFns>::from_str(prefix);
    let id = uuid_string(bits);
    text.append(id.as_str());
    text
}

/// `prefix` followed by the decimal text of `n`.
pub fn text_with_number(prefix: &str, n: u64) -> (r: String)
    ensures
        r@ == prefix@ + decimal_text(n as nat),
{
    let mut text = <String as vstd::string::StringExecFns>::from_str(prefix);
    let digits = decimal_string(n);
    text.append(digits.as_str());
    text
}

/// `text` followed by the text of identity `bits`.
pub fn append_id(text: String, bits: u128) -> (r: String)
    ensures
        r@ == text@ + uuid_text(bits),
{
    let mut text = text;
    let id = uuid_string(bits);
    text.append(id.as_str());
    text
}

/// `text` followed by `suffix`.
pub fn append_text(text: String, suffix: &str) -> (r: String)
    ensures
        r@ == text@ + suffix@,
{
    let mut text = text;
    text.append(suffix);
    text
}

/// Identity of a Timeline.
#[derive(Clone, Copy, PartialEq, Eq, Structural, Debug, Hash, PartialOrd, Ord)]
pub struct TimelineId(pub u128);

/// Identity of a Track of a Timeline.
#[derive(Clone, Copy, PartialEq, Eq, Structural, Debug, Hash, PartialOrd, Ord)]
pub struct TimelineTrackId(pub u128);

/// Identity of a placement on a Track.
#[derive(Clone, Copy, PartialEq, Eq, Structural, Debug, Hash, PartialOrd, Ord)]
pub struct TimelineItemId(pub u128);

/// Identity of a Transition between two placements.
#[derive(Clone, Copy, PartialEq, Eq, Structural, Debug, Hash, PartialOrd, Ord)]
pub struct TransitionId(pub u128);

/// Identity of a Module definition.
#[derive(Clone, Copy, PartialEq, Eq, Structural, Debug, Hash, PartialOrd, Ord)]
pub struct ModuleDefinitionId(pub u128);

/// Identity of a Module instance.
#[derive(Clone, Copy, PartialEq, Eq, Structural, Debug, Hash, PartialOrd, Ord)]
pub struct ModuleInstanceId(pub u128);

/// Identity of a connection inside a Module definition.
#[derive(Clone, Copy, PartialEq, Eq, Structural, Debug, Hash, PartialOrd, Ord)]
pub struct ModuleConnectionId(pub u128);

/// Identity of a Node inside a Module definition.
#[derive(Clone, Copy, PartialEq, Eq, Structural, Debug, Hash, PartialOrd, Ord)]
pub struct ModuleNodeId(pub u128);

/// Identity of a published Module output.
#[derive(Clone, Copy, PartialEq, Eq, Structural, Debug, Hash, PartialOrd, Ord)]
pub struct ModuleOutputId(pub u128);

/// Identity of a published Module media input.
#[derive(Clone, Copy, PartialEq, Eq, Structural, Debug, Hash, PartialOrd, Ord)]
pub struct PublishedMediaInputId(pub u128);

/// Identity of an Attachment on a Timeline, Track or placement.
#[derive(Clone, Copy, PartialEq, Eq, Structural, Debug, Hash, PartialOrd, Ord)]
pub struct AttachmentId(pub u128);

/// Identity of a parameter that a Timeline publishes to its Composition
/// placements.
#[derive(Clone, Copy, PartialEq, Eq, Structural, Debug, Hash, PartialOrd, Ord)]
pub struct CompositionParameterId(pub u128);

impl CompositionParameterId {
    pub fn new() -> (r: Self)
        ensures
            r.0 != 0,
    {
        CompositionParameterId(random_uuid_bits())
    }
}

impl TimelineId {
    pub fn new() -> (r: Self)
        ensures
            r.0 != 0,
    {
        TimelineId(random_uuid_bits())
    }
}

impl TimelineTrackId {
    pub fn new() -> (r: Self)
        ensures
            r.0 != 0,
    {
        TimelineTrackId(random_uuid_bits())
    }
}

impl TimelineItemId {
    pub fn new() -> (r: Self)
        ensures
            r.0 != 0,
    {
        TimelineItemId(random_uuid_bits())
    }
}

impl TransitionId {
    pub fn new() -> (r: Self)
        ensures
            r.0 != 0,
    {
        TransitionId(random_uuid_bits())
    }
}

impl ModuleDefinitionId {
    pub fn new() -> (r: Self)
        ensures
            r.0 != 0,
    {
        ModuleDefinitionId(random_uuid_bits())
    }
}

impl ModuleInstanceId {
    pub fn new() -> (r: Self)
        ensures
            r.0 != 0,
    {
        ModuleInstanceId(random_uuid_bits())
    }
}

impl ModuleConnectionId {
    pub fn new() -> (r: Self)
        ensures
            r.0 != 0,
    {
        ModuleConnectionId(random_uuid_bits())
    }
}

impl ModuleNodeId {
    pub fn new() -> (r: Self)
        ensures
            r.0 != 0,
    {
        ModuleNodeId(random_uuid_bits())
    }
}

impl ModuleOutputId {
    pub fn new() -> (r: Self)
        ensures
            r.0 != 0,
    {
        ModuleOutputId(random_uuid_bits())
    }
}

impl PublishedMediaInputId {
    pub fn new() -> (r: Self)
        ensures
            r.0 != 0,
    {
        PublishedMediaInputId(random_uuid_bits())
    }
}

impl AttachmentId {
    pub fn new() -> (r: Self)
        ensures
            r.0 != 0,
    {
        AttachmentId(random_uuid_bits())
    }
}

} // verus!
