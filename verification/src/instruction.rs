//! Decoding of one raw integer into an operation and the types and addressing
//! modes of its operands.

use vstd::prelude::*;
use crate::fault::Fault;

verus! {

/// What an instruction does.
#[derive(Debug, Clone, Copy, PartialEq, Eq, Structural)]
pub enum Operation {
    Add,
    Multiply,
    GetInput,
    SendOutput,
    JumpIfTrue,
    JumpIfFalse,
    LessThan,
    Equals,
    RelativeBaseOffset,
    Halt,
}

/// Whether an operand is read or written. An operand that is written is never
/// in immediate mode.
#[derive(Debug, Clone, Copy, PartialEq, Eq, Structural)]
pub enum ParamType {
    Read,
    Write,
}

/// How the raw operand is turned into a value or an address.
#[derive(Debug, Clone, Copy, PartialEq, Eq, Structural)]
pub enum ParamMode {
    /// The operand is an address.
    Position,
    /// The operand is the value itself.
    Immediate,
    /// The operand is an address, counted from the relative base.
    Relative,
}

/// A decoded instruction, as the specifications see it.
pub struct Decoded {
    pub op: Operation,
    pub params: Seq<(ParamType, ParamMode)>,
}

/// A decoded instruction: the operation, and for each operand that it takes the
/// type and the addressing mode, in operand order.
#[derive(Debug)]
pub struct Instruction {
    pub op: Operation,
    pub params: Vec<(ParamType, ParamMode)>,
}

impl View for Instruction {
    type V = Decoded;

    open spec fn view(&self) -> Decoded {
        Decoded { op: self.op, params: self.params@ }
    }
}

impl Operation {
    /// The operation that `code` selects, if it selects one.
    pub open spec fn from_code(code: int) -> Option<Operation> {
        if code == 1 {
            Some(Operation::Add)
        } else if code == 2 {
            Some(Operation::Multiply)
        } else if code == 3 {
            Some(Operation::GetInput)
        } else if code == 4 {
            Some(Operation::SendOutput)
        } else if code == 5 {
            Some(Operation::JumpIfTrue)
        } else if code == 6 {
            Some(Operation::JumpIfFalse)
        } else if code == 7 {
            Some(Operation::LessThan)
        } else if code == 8 {
            Some(Operation::Equals)
        } else if code == 9 {
            Some(Operation::RelativeBaseOffset)
        } else if code == 99 {
            Some(Operation::Halt)
        } else {
            None
        }
    }

    /// The code that selects this operation.
    pub open spec fn code(self) -> int {
        match self {
            Operation::Add => 1,
            Operation::Multiply => 2,
            Operation::GetInput => 3,
            Operation::SendOutput => 4,
            Operation::JumpIfTrue => 5,
            Operation::JumpIfFalse => 6,
            Operation::LessThan => 7,
            Operation::Equals => 8,
            Operation::RelativeBaseOffset => 9,
            Operation::Halt => 99,
        }
    }

    /// The types of the operands that this operation takes, in order.
    pub open spec fn operands(self) -> Seq<ParamType> {
        match self {
            Operation::Add | Operation::Multiply | Operation::LessThan | Operation::Equals => seq![
                ParamType::Read,
                ParamType::Read,
                ParamType::Write,
            ],
            Operation::GetInput => seq![ParamType::Write],
            Operation::SendOutput | Operation::RelativeBaseOffset => seq![ParamType::Read],
            Operation::JumpIfTrue | Operation::JumpIfFalse => seq![ParamType::Read, ParamType::Read],
            Operation::Halt => Seq::empty(),
        }
    }

    /// Whether the program counter moves past this instruction once it has been
    /// executed. The jumps set the counter themselves, and a halt leaves it.
    pub open spec fn advances(self) -> bool {
        !(self == Operation::JumpIfTrue || self == Operation::JumpIfFalse || self
            == Operation::Halt)
    }

    /// Parses an operation code, which holds no mode digits.
    pub fn new(code: i64) -> (r: Result<Operation, Fault>)
        ensures
            r == match Operation::from_code(code as int) {
                Some(op) => Ok::<Operation, Fault>(op),
                None => Err(Fault::UnknownOperation),
            },
    {
        match code {
            1 => Ok(Operation::Add),
            2 => Ok(Operation::Multiply),
            3 => Ok(Operation::GetInput),
            4 => Ok(Operation::SendOutput),
            5 => Ok(Operation::JumpIfTrue),
            6 => Ok(Operation::JumpIfFalse),
            7 => Ok(Operation::LessThan),
            8 => Ok(Operation::Equals),
            9 => Ok(Operation::RelativeBaseOffset),
            99 => Ok(Operation::Halt),
            _ => Err(Fault::UnknownOperation),
        }
    }

    /// The operation code of this operation.
    pub fn _code(&self) -> (code: i64)
        ensures
            code == self.code(),
            Operation::from_code(code as int) == Some(*self),
    {
        match self {
            Operation::Add => 1,
            Operation::Multiply => 2,
            Operation::GetInput => 3,
            Operation::SendOutput => 4,
            Operation::JumpIfTrue => 5,
            Operation::JumpIfFalse => 6,
            Operation::LessThan => 7,
            Operation::Equals => 8,
            Operation::RelativeBaseOffset => 9,
            Operation::Halt => 99,
        }
    }

    /// How many operands this operation takes, and of which type each is.
    pub fn param_types(&self) -> (types: Vec<ParamType>)
        ensures
            types@ == self.operands(),
    {
        let types: Vec<ParamType> = match self {
            Operation::Add | Operation::Multiply | Operation::LessThan | Operation::Equals => vec![
                ParamType::Read,
                ParamType::Read,
                ParamType::Write,
            ],
            Operation::GetInput => vec![ParamType::Write],
            Operation::SendOutput | Operation::RelativeBaseOffset => vec![ParamType::Read],
            Operation::JumpIfTrue | Operation::JumpIfFalse => vec![ParamType::Read, ParamType::Read],
            Operation::Halt => Vec::new(),
        };
        assert(types@ =~= self.operands());
        types
    }

    /// Whether the program counter is to be moved past the instruction after
    /// this operation has been executed.
    #[must_use]
    pub fn auto_inc_pc(&self) -> (advance: bool)
        ensures
            advance == self.advances(),
    {
        match self {
            Operation::JumpIfTrue => false,
            Operation::JumpIfFalse => false,
            Operation::Halt => false,
            _ => true,
        }
    }
}

impl ParamMode {
    /// The mode that the digit `flag` selects, if it selects one.
    pub open spec fn from_flag(flag: int) -> Option<ParamMode> {
        if flag == 0 {
            Some(ParamMode::Position)
        } else if flag == 1 {
            Some(ParamMode::Immediate)
        } else if flag == 2 {
            Some(ParamMode::Relative)
        } else {
            None
        }
    }

    /// Parses one mode digit.
    pub fn new(mode_flag: i64) -> (r: Result<ParamMode, Fault>)
        ensures
            r == match ParamMode::from_flag(mode_flag as int) {
                Some(mode) => Ok::<ParamMode, Fault>(mode),
                None => Err(Fault::InvalidMode),
            },
    {
        match mode_flag {
            0 => Ok(ParamMode::Position),
            1 => Ok(ParamMode::Immediate),
            2 => Ok(ParamMode::Relative),
            _ => Err(Fault::InvalidMode),
        }
    }
}

/// The digits of the instruction `raw` from the mode digit of operand `k`
/// upward. An operation takes three operands at most.
pub open spec fn mode_digits(raw: int, k: int) -> int {
    if k <= 0 {
        raw / 100
    } else if k == 1 {
        raw / 1000
    } else {
        raw / 10000
    }
}

/// The mode digit of operand `k` in the instruction `raw`: the hundreds for the
/// first operand, the thousands for the second, the ten thousands for the third.
pub open spec fn mode_digit(raw: int, k: int) -> int {
    mode_digits(raw, k) % 10
}

/// Operand `k` of the instruction `raw`, which is of type `typ`.
pub open spec fn decode_param(raw: int, typ: ParamType, k: int) -> Result<
    (ParamType, ParamMode),
    Fault,
> {
    match ParamMode::from_flag(mode_digit(raw, k)) {
        None => Err(Fault::InvalidMode),
        Some(mode) => if typ == ParamType::Write && mode == ParamMode::Immediate {
            Err(Fault::ImmediateWrite)
        } else {
            Ok((typ, mode))
        },
    }
}

/// The first `n` operands of the instruction `raw`, whose operands are of the
/// types `types`; or the fault of the first operand among them that has one.
pub open spec fn decode_params(raw: int, types: Seq<ParamType>, n: int) -> Result<
    Seq<(ParamType, ParamMode)>,
    Fault,
>
    decreases n,
{
    if n <= 0 {
        Ok(Seq::empty())
    } else {
        match decode_params(raw, types, n - 1) {
            Err(fault) => Err(fault),
            Ok(params) => match decode_param(raw, types[n - 1], n - 1) {
                Err(fault) => Err(fault),
                Ok(param) => Ok(params.push(param)),
            },
        }
    }
}

/// What the raw integer `raw` decodes to.
///
/// The low two decimal digits select the operation; no operation has a code
/// below 1, so no integer below 1 is an instruction. Each higher digit, from the
/// hundreds upward, selects the mode of one operand. Digits beyond the last
/// operand are not looked at.
pub open spec fn decode(raw: int) -> Result<Decoded, Fault> {
    if raw <= 0 {
        Err(Fault::UnknownOperation)
    } else {
        match Operation::from_code(raw % 100) {
            None => Err(Fault::UnknownOperation),
            Some(op) => match decode_params(raw, op.operands(), op.operands().len() as int) {
                Err(fault) => Err(fault),
                Ok(params) => Ok(Decoded { op, params }),
            },
        }
    }
}

/// A decoded instruction has as many operands as its operation takes, each of
/// the type that the operation gives it and in the mode that its digit selects,
/// and none that is written is in immediate mode.
pub proof fn lemma_decode_params(raw: int, types: Seq<ParamType>, n: int)
    requires
        0 <= n <= types.len(),
    ensures
        decode_params(raw, types, n) matches Ok(params) ==> {
            &&& params.len() == n
            &&& forall|k: int|
                0 <= k < n ==> {
                    &&& (#[trigger] params[k]).0 == types[k]
                    &&& ParamMode::from_flag(mode_digit(raw, k)) == Some(params[k].1)
                    &&& !(params[k].0 == ParamType::Write && params[k].1 == ParamMode::Immediate)
                }
        },
        decode_params(raw, types, n) is Err <==> exists|k: int|
            0 <= k < n && #[trigger] decode_param(raw, types[k], k) is Err,
    decreases n,
{
    if n > 0 {
        lemma_decode_params(raw, types, n - 1);
        if decode_params(raw, types, n - 1) is Ok {
            if decode_param(raw, types[n - 1], n - 1) is Err {
                assert(decode_param(raw, types[n - 1], n - 1) is Err);
            } else {
                assert forall|k: int| 0 <= k < n implies !(#[trigger] decode_param(
                    raw,
                    types[k],
                    k,
                ) is Err) by {
                    if k < n - 1 {
                    }
                }
            }
        } else {
            let k = choose|k: int|
                0 <= k < n - 1 && #[trigger] decode_param(raw, types[k], k) is Err;
            assert(decode_param(raw, types[k], k) is Err);
        }
    }
}

/// A fault among the first `m` operands is the fault of any longer prefix.
proof fn lemma_decode_params_fault(raw: int, types: Seq<ParamType>, m: int, n: int)
    requires
        m <= n,
    ensures
        decode_params(raw, types, m) is Err ==> decode_params(raw, types, n) == decode_params(
            raw,
            types,
            m,
        ),
    decreases n - m,
{
    if m < n {
        lemma_decode_params_fault(raw, types, m, n - 1);
    }
}

impl Instruction {
    /// Parses a raw instruction into its operation and the modes of its operands.
    pub fn new(opcode: i64) -> (r: Result<Instruction, Fault>)
        ensures
            match r {
                Ok(instr) => decode(opcode as int) == Ok::<Decoded, Fault>(instr@),
                Err(fault) => decode(opcode as int) == Err::<Decoded, Fault>(fault),
            },
    {
        if opcode <= 0 {
            return Err(Fault::UnknownOperation);
        }
        let op: Operation = Operation::new(opcode % 100)?;
        let types: Vec<ParamType> = op.param_types();
        let mut params: Vec<(ParamType, ParamMode)> = Vec::new();
        let mut mode_bits: i64 = opcode / 100;
        let mut k: usize = 0;
        while k < types.len()
            invariant
                0 < opcode,
                k <= types.len(),
                types@ == op.operands(),
                Operation::from_code((opcode as int) % 100) == Some(op),
                types.len() <= 3,
                k < 3 ==> mode_bits == mode_digits(opcode as int, k as int),
                decode_params(opcode as int, types@, k as int) == Ok::<
                    Seq<(ParamType, ParamMode)>,
                    Fault,
                >(params@),
            decreases types.len() - k,
        {
            let typ: ParamType = types[k];
            proof {
                lemma_decode_params_fault(opcode as int, types@, k as int + 1, types.len() as int);
            }
            let mode: ParamMode = match ParamMode::new(mode_bits % 10) {
                Ok(mode) => mode,
                Err(fault) => {
                    return Err(fault);
                },
            };
            if typ == ParamType::Write && mode == ParamMode::Immediate {
                return Err(Fault::ImmediateWrite);
            }
            params.push((typ, mode));
            mode_bits = mode_bits / 10;
            k = k + 1;
        }
        Ok(Instruction { op, params })
    }
}

} // verus!
