//! The 29-bit extended CAN identifier: eleven bits of connection id, two
//! bits of command and sixteen bits of counter, from the most significant
//! bit down, under the flag that marks an extended frame.

use vstd::prelude::*;

verus! {

/// The bits of an identifier word that hold the extended identifier.
pub const CAN_EFF_MASK: u32 = 0x1FFF_FFFF;

/// The bit of an identifier word that marks an extended frame.
pub const CAN_EFF_FLAG: u32 = 0x8000_0000;

/// The bits of a command code.
pub const LEIA_CMD_MASK: u32 = 0x03;

/// The largest connection id that fits the eleven bits of the identifier.
pub const LEIA_ID_MAX: u16 = 0x7FF;

/// LeiA command codes.
#[derive(PartialEq, Eq, Structural, Debug, Clone, Copy)]
pub enum LeiACmd {
    Data,
    Mac,
    AecEpoch,
    AecMac,
}

impl LeiACmd {
    /// The two-bit code of a command.
    pub open spec fn spec_code(self) -> u16 {
        match self {
            LeiACmd::Data => 0,
            LeiACmd::Mac => 1,
            LeiACmd::AecEpoch => 2,
            LeiACmd::AecMac => 3,
        }
    }

    /// The command that a code stands for; codes above three stand for
    /// none.
    pub open spec fn spec_from_code(code: int) -> Option<LeiACmd> {
        if code == 0 {
            Some(LeiACmd::Data)
        } else if code == 1 {
            Some(LeiACmd::Mac)
        } else if code == 2 {
            Some(LeiACmd::AecEpoch)
        } else if code == 3 {
            Some(LeiACmd::AecMac)
        } else {
            None
        }
    }

    /// The two-bit code of this command.
    #[verifier::when_used_as_spec(spec_code)]
    pub fn code(self) -> (code: u16)
        ensures
            code == self.spec_code(),
            code <= 3,
    {
        match self {
            LeiACmd::Data => 0x00,
            LeiACmd::Mac => 0x01,
            LeiACmd::AecEpoch => 0x02,
            LeiACmd::AecMac => 0x03,
        }
    }

    /// The command with the given code, if there is one.
    pub fn from_code(code: u32) -> (cmd: Option<LeiACmd>)
        ensures
            cmd == Self::spec_from_code(code as int),
            cmd is Some <==> code <= 3,
    {
        match code {
            0x00 => Some(LeiACmd::Data),
            0x01 => Some(LeiACmd::Mac),
            0x02 => Some(LeiACmd::AecEpoch),
            0x03 => Some(LeiACmd::AecMac),
            _ => None,
        }
    }
}

impl vstd::std_specs::convert::FromSpecImpl<LeiACmd> for u16 {
    open spec fn obeys_from_spec() -> bool {
        true
    }

    open spec fn from_spec(cmd: LeiACmd) -> u16 {
        cmd.spec_code()
    }
}

impl From<LeiACmd> for u16 {
    fn from(cmd: LeiACmd) -> (code: u16) {
        cmd.code()
    }
}

/// The identifier word for a connection id, a command and a counter: the
/// three fields side by side under the extended-frame flag.
pub open spec fn eid_of(id: u16, cmd: LeiACmd, counter: u16) -> u32 {
    (((id as u32) << 18 | (cmd.spec_code() as u32) << 16) | counter as u32) | CAN_EFF_FLAG
}

/// Whether an identifier word is addressed to the protocol: it carries
/// the extended-frame flag, and its 29 low bits exceed what a legacy
/// eleven-bit identifier can hold.
pub open spec fn is_extended(eid: u32) -> bool {
    eid >= 0x8000_0000 && eid % 0x2000_0000 > 0x7FF
}

/// The connection id in an identifier word.
pub open spec fn eid_id(eid: u32) -> u16 {
    ((eid % 0x2000_0000) / 0x4_0000) as u16
}

/// The command code in an identifier word.
pub open spec fn eid_code(eid: u32) -> int {
    ((eid / 0x1_0000) % 4) as int
}

/// The command in an identifier word.
pub open spec fn eid_cmd(eid: u32) -> LeiACmd {
    LeiACmd::spec_from_code(eid_code(eid)).unwrap()
}

/// The counter in an identifier word.
pub open spec fn eid_counter(eid: u32) -> u16 {
    (eid % 0x1_0000) as u16
}

/// The three fields of an identifier word that is addressed to the
/// protocol, and nothing for any other word.
pub open spec fn parse_eid_spec(eid: u32) -> Option<(u16, LeiACmd, u16)> {
    if is_extended(eid) {
        Some((eid_id(eid), eid_cmd(eid), eid_counter(eid)))
    } else {
        None
    }
}

/// For an id of at most eleven bits the fields of an identifier word do
/// not overlap, so the word is their weighted sum.
pub proof fn lemma_eid_of_sum(id: u16, cmd: LeiACmd, counter: u16)
    requires
        id <= LEIA_ID_MAX,
    ensures
        eid_of(id, cmd, counter) == 0x8000_0000 + id * 0x4_0000 + cmd.spec_code() * 0x1_0000
            + counter,
{
    let code: u16 = cmd.spec_code();
    assert((((id as u32) << 18 | (code as u32) << 16) | counter as u32) | 0x8000_0000u32
        == 0x8000_0000 + id * 0x4_0000 + code * 0x1_0000 + counter) by (bit_vector)
        requires
            id <= 0x7FF,
            code <= 3,
    ;
}

/// Builds a LeiA extended identifier from the 11 bit id, a LeiA command
/// code and 16 bit counter value.
pub fn build_eid(id: u16, cmd: LeiACmd, counter: u16) -> (eid: u32)
    ensures
        eid == eid_of(id, cmd, counter),
{
    let cmdu: u16 = cmd.code();
    (((id as u32) << 18 | (cmdu as u32) << 16) | counter as u32) | CAN_EFF_FLAG
}

/// Takes an identifier word apart. A word without the extended-frame
/// flag, or whose identifier fits eleven bits, belongs to a legacy frame
/// and gives nothing.
pub fn parse_eid(eid: u32) -> (fields: Option<(u16, LeiACmd, u16)>)
    ensures
        fields == parse_eid_spec(eid),
{
    let low: u32 = eid & CAN_EFF_MASK;
    assert(low == eid % 0x2000_0000) by (bit_vector)
        requires
            low == eid & 0x1FFF_FFFFu32,
    ;
    assert((eid & 0x8000_0000u32 != 0) <==> eid >= 0x8000_0000) by (bit_vector);
    if eid & CAN_EFF_FLAG != 0 && low > 0x7FF {
        let id: u16 = (low >> 18) as u16;
        let code: u32 = (low >> 16) & LEIA_CMD_MASK;
        let counter: u16 = (low & 0xFFFF) as u16;
        assert(low >> 18 == low / 0x4_0000 && low >> 18 <= 0x7FF) by (bit_vector)
            requires
                low == eid & 0x1FFF_FFFFu32,
        ;
        assert((low >> 16) & 0x03 == (eid / 0x1_0000) % 4 && (low >> 16) & 0x03 <= 3)
            by (bit_vector)
            requires
                low == eid & 0x1FFF_FFFFu32,
        ;
        assert(low & 0xFFFF == eid % 0x1_0000 && low & 0xFFFF <= 0xFFFF) by (bit_vector)
            requires
                low == eid & 0x1FFF_FFFFu32,
        ;
        match LeiACmd::from_code(code) {
            Some(cmd) => Some((id, cmd, counter)),
            None => None,
        }
    } else {
        None
    }
}

/// Taking apart the word that was built from a legal triple gives the
/// triple again. Left out are the words of connection id zero with the
/// data command and a counter of at most eleven bits: they read as legacy
/// identifiers.
pub proof fn lemma_parse_build(id: u16, cmd: LeiACmd, counter: u16)
    requires
        id <= LEIA_ID_MAX,
        !(id == 0 && cmd == LeiACmd::Data && counter <= 0x7FF),
    ensures
        parse_eid_spec(eid_of(id, cmd, counter)) == Some((id, cmd, counter)),
{
    lemma_eid_of_sum(id, cmd, counter);
}

/// A word of connection id zero with the data command and a counter of at
/// most eleven bits is not addressed to the protocol.
pub proof fn lemma_parse_build_legacy(counter: u16)
    requires
        counter <= 0x7FF,
    ensures
        parse_eid_spec(eid_of(0, LeiACmd::Data, counter)) is None,
{
    lemma_eid_of_sum(0, LeiACmd::Data, counter);
}

/// Building a word from the fields of one that is addressed to the
/// protocol gives its extended identifier under the flag.
pub proof fn lemma_build_parse(eid: u32)
    requires
        is_extended(eid),
    ensures
        eid_id(eid) <= LEIA_ID_MAX,
        eid_of(eid_id(eid), eid_cmd(eid), eid_counter(eid)) == 0x8000_0000 + eid % 0x2000_0000,
{
    let id = eid_id(eid);
    let cmd = eid_cmd(eid);
    let counter = eid_counter(eid);
    lemma_eid_of_sum(id, cmd, counter);
}

} // verus!
