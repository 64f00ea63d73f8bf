//! Segwit witness programs: a version byte and a 2-to-40-byte program.
use vstd::prelude::*;

verus! {

#[derive(Debug, Clone, PartialEq, Eq)]
pub enum WitnessProgramError {
    InvalidProgramLength(usize),
    InvalidProgramLengthForVersion(usize, u8),
    InvalidVersion(u8),
    MismatchedProgramLength(usize, usize),
    ProgramDecodingError,
}

#[derive(Debug, Clone, PartialEq, Eq)]
pub struct WitnessProgram {
    pub version: u8,
    pub program: Vec<u8>,
}

/// The well-formedness rules of a witness program: program length within
/// [2, 40], version at most 16, and version 0 restricted to lengths 20 or 32.
pub open spec fn witness_program_valid(version: u8, program: Seq<u8>) -> bool {
    2 <= program.len() <= 40 && version <= 16 && (version == 0 ==> (program.len() == 20
        || program.len() == 32))
}

impl WitnessProgram {
    /// Parses `version ∥ declared-length ∥ program` and validates the result.
    pub fn new(program: &Vec<u8>) -> (r: Result<Self, WitnessProgramError>)
        ensures
            ({
                let data = program@.skip(2);
                if program@.len() < 2 {
                    r == Err::<WitnessProgram, WitnessProgramError>(
                        WitnessProgramError::InvalidProgramLength(program@.len() as usize),
                    )
                } else if program@[1] != data.len() {
                    r == Err::<WitnessProgram, WitnessProgramError>(
                        WitnessProgramError::MismatchedProgramLength(
                            data.len() as usize,
                            program@[1] as usize,
                        ),
                    )
                } else if witness_program_valid(program@[0], data) {
                    r matches Ok(w) && w.version == program@[0] && w.program@ == data
                } else {
                    r matches Err(e) && e == validate_error(program@[0], data)
                }
            }),
            r matches Ok(w) ==> witness_program_valid(w.version, w.program@),
    {
        let n: usize = program.len();
        if n < 2 {
            return Err(WitnessProgramError::InvalidProgramLength(n));
        }
        let data_size: usize = program[1] as usize;
        let mut data: Vec<u8> = Vec::new();
        let mut i: usize = 2;
        while i < n
            invariant
                2 <= i <= n,
                n == program@.len(),
                data@ == program@.subrange(2, i as int),
            decreases n - i,
        {
            data.push(program[i]);
            proof {
                assert(data@ =~= program@.subrange(2, i + 1));
            }
            i = i + 1;
        }
        proof {
            assert(program@.subrange(2, n as int) =~= program@.skip(2));
        }
        if data_size != data.len() {
            return Err(WitnessProgramError::MismatchedProgramLength(data.len(), data_size));
        }
        let result = Self { version: program[0], program: data };
        match result.validate() {
            Ok(()) => Ok(result),
            Err(e) => Err(e),
        }
    }

    /// Checks the version/length rules, reporting the first violation.
    pub fn validate(&self) -> (r: Result<(), WitnessProgramError>)
        ensures
            witness_program_valid(self.version, self.program@) ==> r == Ok::<
                (),
                WitnessProgramError,
            >(()),
            !witness_program_valid(self.version, self.program@) ==> r == Err::<
                (),
                WitnessProgramError,
            >(validate_error(self.version, self.program@)),
    {
        let n: usize = self.program.len();
        if n < 2 || n > 40 {
            return Err(WitnessProgramError::InvalidProgramLength(n));
        }
        if self.version > 16 {
            return Err(WitnessProgramError::InvalidVersion(self.version));
        }
        if self.version == 0 && !(n == 20 || n == 32) {
            return Err(WitnessProgramError::InvalidProgramLengthForVersion(n, self.version));
        }
        Ok(())
    }

    /// The scriptPubKey encoding: the version opcode, then the
    /// length-prefixed program.
    pub fn to_scriptpubkey(&self) -> (r: Vec<u8>)
        requires
            witness_program_valid(self.version, self.program@),
        ensures
            r@ == witness_scriptpubkey(self.version, self.program@),
    {
        let mut output: Vec<u8> = Vec::new();
        let encoded_version: u8 = if self.version > 0 {
            self.version + 0x50
        } else {
            self.version
        };
        output.push(encoded_version);
        output.push(self.program.len() as u8);
        let n: usize = self.program.len();
        let mut i: usize = 0;
        while i < n
            invariant
                i <= n,
                n == self.program@.len(),
                output@ == seq![
                    (if self.version > 0 {
                        (self.version + 0x50) as u8
                    } else {
                        self.version
                    }),
                    n as u8,
                ] + self.program@.take(i as int),
            decreases n - i,
        {
            output.push(self.program[i]);
            proof {
                assert(self.program@.take(i + 1) =~= self.program@.take(i as int) + seq![
                    self.program@[i as int],
                ]);
            }
            i = i + 1;
        }
        proof {
            assert(self.program@.take(n as int) =~= self.program@);
            assert(output@ =~= witness_scriptpubkey(self.version, self.program@));
        }
        output
    }
}

/// The first version/length rule a program violates, as its error.
pub open spec fn validate_error(version: u8, program: Seq<u8>) -> WitnessProgramError {
    if program.len() < 2 || program.len() > 40 {
        WitnessProgramError::InvalidProgramLength(program.len() as usize)
    } else if version > 16 {
        WitnessProgramError::InvalidVersion(version)
    } else {
        WitnessProgramError::InvalidProgramLengthForVersion(program.len() as usize, version)
    }
}

/// The scriptPubKey bytes of a witness program: `0x00` for version 0 or
/// `0x50 + version` otherwise, then the length-prefixed program.
pub open spec fn witness_scriptpubkey(version: u8, program: Seq<u8>) -> Seq<u8> {
    seq![
        (if version > 0 {
            (version + 0x50) as u8
        } else {
            version
        }),
        program.len() as u8,
    ] + program
}

} // verus!
