use vstd::prelude::*;

use crate::decimal::{lemma_fixed_text_chars, Decimal};
use crate::error::Error;

verus! {

/// One operation of the instrument.
#[derive(Debug, Clone, Copy, PartialEq, Eq, Structural)]
pub enum Command {
    GetDeviceModelName,
    GetFirmwareVersion,
    GetMaximumSupportedVoltage,
    GetMaximumSupportedCurrent,
    SetOutput(bool),
    GetOutput,
    MeasureVoltage,
    MeasureCurrent,
    GetOutputVoltage,
    GetOutputCurrent,
    /// A voltage set-point and the number of digits to write after the point.
    SetOutputVoltage(Decimal, usize),
    /// A current set-point and the number of digits to write after the point.
    SetOutputCurrent(Decimal, usize),
    GetOverCurrentProtectionStatus,
    SetOverCurrentProtection(bool),
}

pub open spec fn on_off(b: bool) -> Seq<char> {
    if b {
        "on"@
    } else {
        "off"@
    }
}

pub open spec fn terminator() -> Seq<char> {
    "\r\n"@
}

impl Command {
    /// The command text, without the line terminator.
    pub open spec fn mnemonic(self) -> Seq<char> {
        match self {
            Command::GetDeviceModelName => "*idn?"@,
            Command::GetFirmwareVersion => "syst:vers?"@,
            Command::GetMaximumSupportedVoltage => "volt? max"@,
            Command::GetMaximumSupportedCurrent => "curr? max"@,
            Command::SetOutput(b) => "output "@ + on_off(b),
            Command::GetOutput => "output?"@,
            Command::MeasureVoltage => "meas:volt?"@,
            Command::MeasureCurrent => "meas:curr?"@,
            Command::GetOutputVoltage => "voltage?"@,
            Command::GetOutputCurrent => "current?"@,
            Command::SetOutputVoltage(v, p) => "voltage "@ + v.fixed_text(p as nat),
            Command::SetOutputCurrent(v, p) => "current "@ + v.fixed_text(p as nat),
            Command::GetOverCurrentProtectionStatus => "curr:prot:stat?"@,
            Command::SetOverCurrentProtection(b) => "curr:prot:stat "@ + on_off(b),
        }
    }

    /// The exact text sent to the instrument.
    pub open spec fn wire_text(self) -> Seq<char> {
        self.mnemonic() + terminator()
    }

    /// Whether a missing reply (a read that times out with no byte) is an
    /// acceptable outcome: the instrument does not answer the setting commands.
    pub open spec fn spec_allows_absent_response(self) -> bool {
        match self {
            Command::SetOutput(_) => true,
            Command::SetOutputVoltage(_, _) => true,
            Command::SetOutputCurrent(_, _) => true,
            Command::SetOverCurrentProtection(_) => true,
            _ => false,
        }
    }

    #[verifier::when_used_as_spec(spec_allows_absent_response)]
    pub fn allows_absent_response(self) -> (r: bool)
        ensures
            r == self.spec_allows_absent_response(),
    {
        match self {
            Command::SetOutput(_) => true,
            Command::SetOutputVoltage(_, _) => true,
            Command::SetOutputCurrent(_, _) => true,
            Command::SetOverCurrentProtection(_) => true,
            _ => false,
        }
    }

    /// Renders the command as the line the instrument expects.
    pub fn serialize(self) -> (r: Result<String, Error>)
        ensures
            r matches Ok(s) && s@ == self.wire_text(),
    {
        let mut buffer = String::new();
        match self {
            Command::GetDeviceModelName => buffer.append("*idn?"),
            Command::GetFirmwareVersion => buffer.append("syst:vers?"),
            Command::GetMaximumSupportedVoltage => buffer.append("volt? max"),
            Command::GetMaximumSupportedCurrent => buffer.append("curr? max"),
            Command::SetOutput(b) => {
                buffer.append("output ");
                append_on_off(&mut buffer, b);
            },
            Command::GetOutput => buffer.append("output?"),
            Command::MeasureVoltage => buffer.append("meas:volt?"),
            Command::MeasureCurrent => buffer.append("meas:curr?"),
            Command::GetOutputVoltage => buffer.append("voltage?"),
            Command::GetOutputCurrent => buffer.append("current?"),
            Command::SetOutputVoltage(v, p) => {
                buffer.append("voltage ");
                v.write_fixed(&mut buffer, p);
            },
            Command::SetOutputCurrent(i, p) => {
                buffer.append("current ");
                i.write_fixed(&mut buffer, p);
            },
            Command::GetOverCurrentProtectionStatus => buffer.append("curr:prot:stat?"),
            Command::SetOverCurrentProtection(b) => {
                buffer.append("curr:prot:stat ");
                append_on_off(&mut buffer, b);
            },
        }
        buffer.append("\r\n");
        Ok(buffer)
    }
}

/// Serializing is deterministic: equal commands are written as equal text
/// (`Command::serialize` returns exactly `wire_text`).
pub proof fn lemma_serialization_deterministic(c1: Command, c2: Command)
    requires
        c1 == c2,
    ensures
        c1.wire_text() == c2.wire_text(),
{
}

/// Every command's wire text is its mnemonic followed by `\r\n`, and the
/// mnemonic holds no carriage return or line feed: the terminator comes
/// exactly once, at the end.
pub proof fn lemma_wire_text_terminated(c: Command)
    ensures
        c.wire_text().len() >= 2,
        c.wire_text()[c.wire_text().len() - 2] == '\r',
        c.wire_text()[c.wire_text().len() - 1] == '\n',
        forall|i: int|
            0 <= i < c.wire_text().len() - 2 ==> #[trigger] c.wire_text()[i] != '\r'
                && c.wire_text()[i] != '\n',
{
    reveal_strlit("\r\n");
    reveal_strlit("*idn?");
    reveal_strlit("syst:vers?");
    reveal_strlit("volt? max");
    reveal_strlit("curr? max");
    reveal_strlit("output ");
    reveal_strlit("output?");
    reveal_strlit("meas:volt?");
    reveal_strlit("meas:curr?");
    reveal_strlit("voltage?");
    reveal_strlit("current?");
    reveal_strlit("voltage ");
    reveal_strlit("current ");
    reveal_strlit("curr:prot:stat?");
    reveal_strlit("curr:prot:stat ");
    reveal_strlit("on");
    reveal_strlit("off");
    let m = c.mnemonic();
    assert(c.wire_text() == m + terminator());
    assert(forall|i: int| 0 <= i < m.len() ==> #[trigger] m[i] != '\r' && m[i] != '\n') by {
        match c {
            Command::SetOutputVoltage(v, p) => lemma_fixed_text_chars(v, p as nat),
            Command::SetOutputCurrent(v, p) => lemma_fixed_text_chars(v, p as nat),
            _ => {},
        }
    }
    assert forall|i: int| 0 <= i < c.wire_text().len() - 2 implies #[trigger] c.wire_text()[i]
        != '\r' && c.wire_text()[i] != '\n' by {
        assert(c.wire_text()[i] == m[i]);
    }
}

fn append_on_off(out: &mut String, b: bool)
    ensures
        final(out)@ == old(out)@ + on_off(b),
{
    if b {
        out.append("on");
    } else {
        out.append("off");
    }
}

} // verus!
