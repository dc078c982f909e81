//! Compiled programs: probes, constant pool, and the wire format entry
//! points.

use vstd::prelude::*;
use crate::constant_pool::{Constant, ConstantPool};

verus! {

/// A compiled probe program ready for execution.
///
/// The sampling rate is a 32-bit IEEE-754 float carried as its bit pattern
/// (0x3F800000 is 1.0, full sampling).
#[derive(Debug, Clone)]
pub struct Program {
    /// Bytecode format version
    pub version: u32,
    /// Shared constant pool for all probes
    pub constant_pool: ConstantPool,
    /// All probes in the program
    pub probes: Vec<Probe>,
    /// Global sampling rate, as the bits of a 32-bit float
    pub sampling: u32,
}

/// A single probe with its specification and bytecode.
#[derive(Debug, Clone)]
pub struct Probe {
    /// Unique probe identifier
    pub id: String,
    /// Probe specification (where to install the probe)
    pub spec: ProbeSpec,
    /// Predicate bytecode (empty if no predicate)
    pub predicate: Vec<u8>,
    /// Action body bytecode
    pub body: Vec<u8>,
}

/// Probe specification - defines where the probe is installed.
#[derive(Debug, Clone)]
pub enum ProbeSpec {
    /// Function probe (fn:module.function:target)
    Fn { specifier: String, target: FnTarget },
}

/// Function probe target.
#[derive(Debug, Clone, Copy, PartialEq, Eq, Structural)]
pub enum FnTarget {
    Entry,
    Exit,
}

/// The mathematical shape of a probe: strings as character sequences.
#[verifier::ext_equal]
pub struct ProbeView {
    pub id: Seq<char>,
    pub specifier: Seq<char>,
    pub target: FnTarget,
    pub predicate: Seq<u8>,
    pub body: Seq<u8>,
}

impl View for Probe {
    type V = ProbeView;

    open spec fn view(&self) -> ProbeView {
        match self.spec {
            ProbeSpec::Fn { specifier, target } => ProbeView {
                id: self.id@,
                specifier: specifier@,
                target,
                predicate: self.predicate@,
                body: self.body@,
            },
        }
    }
}

impl DeepView for Probe {
    type V = ProbeView;

    open spec fn deep_view(&self) -> ProbeView {
        self.view()
    }
}

/// The mathematical shape of a program.
#[verifier::ext_equal]
pub struct ProgramView {
    pub version: u32,
    pub constants: Seq<crate::constant_pool::ConstView>,
    pub probes: Seq<ProbeView>,
    pub sampling: u32,
}

impl View for Program {
    type V = ProgramView;

    open spec fn view(&self) -> ProgramView {
        ProgramView {
            version: self.version,
            constants: self.constant_pool@.map_values(|c: Constant| c.deep_view()),
            probes: self.probes.deep_view(),
            sampling: self.sampling,
        }
    }
}

impl Program {
    /// Serialize this program to its wire bytes.  The encoding is a pure
    /// function of the program, so equal programs always serialize to the
    /// same bytes.
    pub fn to_proto_bytes(&self) -> (r: Result<Vec<u8>, String>)
        ensures
            (r matches Ok(bytes) && bytes@ == crate::wire::enc_program(self@)),
    {
        Ok(crate::wire::encode_program(self))
    }

    /// Deserialize a program from wire bytes; decoding the encoding of any
    /// program with the current version succeeds and returns exactly that
    /// program, field for field.
    pub fn from_proto_bytes(bytes: &[u8]) -> (r: Result<Self, String>)
        ensures
            forall|pv: ProgramView|
                bytes@ == crate::wire::enc_program(pv) && pv.version == 1 ==> (r matches Ok(p)
                    && p@ == pv),
    {
        crate::wire::decode_program(bytes)
    }
}

} // verus!
