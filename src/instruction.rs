use vstd::prelude::*;

verus! {

/// Where a `goto` moves the cursor.
#[derive(Debug, PartialEq, Eq)]
pub enum Dest {
    /// A named label, looked up when the program is resolved.
    Marker(String),
    /// A screen position given as row and column.
    Relative { row: i32, col: i32 },
}

/// Text to emit: a literal, or the name of a loaded variable.
#[derive(Debug, PartialEq, Eq)]
pub enum Source {
    Str(String),
    Ident(String),
}

/// One operation of a script.
#[derive(Debug, PartialEq, Eq)]
pub enum Instruction {
    Load(String, String),
    Goto(Dest),
    Type { source: Source, trim_trailing_newline: bool, prefix_newline: bool },
    Insert(Source),
    Replace { src: String, replacement: Source },
    Delete,
    Speed(u64),
    Select { width: u16, height: u16 },
    Find(String),
    LinePause(u64),
    Wait(u64),
}

/// The instructions of a script, in order.
#[derive(Debug, PartialEq, Eq)]
pub struct Instructions {
    pub instructions: Vec<Instruction>,
}

impl Instructions {
    pub fn new(instructions: Vec<Instruction>) -> (r: Instructions)
        ensures
            r.instructions == instructions,
    {
        Instructions { instructions }
    }

    /// Hands out the instructions, consuming the sequence.
    pub fn take_instructions(self) -> (r: Vec<Instruction>)
        ensures
            r == self.instructions,
    {
        self.instructions
    }
}

} // verus!
