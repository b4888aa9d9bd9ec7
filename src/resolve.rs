use vstd::prelude::*;
use crate::instruction::{Dest, Instruction, Instructions};

verus! {

/// A marker's definition: its name and the screen position it stands for.
#[derive(Debug, PartialEq, Eq)]
pub struct MarkerDef {
    pub name: String,
    pub row: i32,
    pub col: i32,
}

/// Why a program could not be resolved.
#[derive(Debug, PartialEq, Eq)]
pub enum ResolveError {
    /// A `goto` names a marker that no definition gives.
    UndefinedMarker(String),
    /// Two definitions give the same name.
    DuplicateMarker(String),
}

/// A script whose every `goto` target is a concrete position.
#[derive(Debug, PartialEq, Eq)]
pub struct Program {
    pub instructions: Vec<Instruction>,
}

/// Definition `j` repeats the name of an earlier one.
pub open spec fn duplicate_at(defs: Seq<MarkerDef>, j: int) -> bool {
    exists|i: int| 0 <= i < j && (#[trigger] defs[i]).name@ == defs[j].name@
}

pub open spec fn names_unique(defs: Seq<MarkerDef>) -> bool {
    forall|j: int| 0 <= j < defs.len() ==> !duplicate_at(defs, j)
}

pub open spec fn defines(defs: Seq<MarkerDef>, name: Seq<char>) -> bool {
    exists|k: int| 0 <= k < defs.len() && (#[trigger] defs[k]).name@ == name
}

/// A `goto` to a marker that the definitions do not give.
pub open spec fn undefined_goto(a: Instruction, defs: Seq<MarkerDef>) -> bool {
    a matches Instruction::Goto(Dest::Marker(m)) && !defines(defs, m@)
}

/// `b` is `a` with its marker, if it has one, replaced by the marker's position.
pub open spec fn resolves_to(a: Instruction, b: Instruction, defs: Seq<MarkerDef>) -> bool {
    match a {
        Instruction::Goto(Dest::Marker(m)) => exists|k: int|
            0 <= k < defs.len() && (#[trigger] defs[k]).name@ == m@ && b == Instruction::Goto(
                Dest::Relative { row: defs[k].row, col: defs[k].col },
            ),
        _ => b == a,
    }
}

/// The marker a `goto` names; empty for any other instruction.
pub open spec fn goto_marker(a: Instruction) -> Seq<char> {
    match a {
        Instruction::Goto(Dest::Marker(m)) => m@,
        _ => seq![],
    }
}

/// No `goto` of the instructions names a marker.
pub open spec fn all_concrete(is: Seq<Instruction>) -> bool {
    forall|i: int| 0 <= i < is.len() ==> !(#[trigger] is[i] matches Instruction::Goto(Dest::Marker(_)))
}

/// The index of the first definition that repeats an earlier name, if any.
fn first_duplicate(defs: &Vec<MarkerDef>) -> (r: Option<usize>)
    ensures
        match r {
            Some(j) => j < defs.len() && duplicate_at(defs@, j as int) && forall|k: int|
                0 <= k < j ==> !duplicate_at(defs@, k),
            None => names_unique(defs@),
        },
{
    let mut j: usize = 0;
    while j < defs.len()
        invariant
            j <= defs.len(),
            forall|k: int| 0 <= k < j ==> !duplicate_at(defs@, k),
        decreases defs.len() - j,
    {
        let mut i: usize = 0;
        while i < j
            invariant
                i <= j < defs.len(),
                forall|k: int| 0 <= k < j ==> !duplicate_at(defs@, k),
                forall|k: int| 0 <= k < i ==> defs@[k].name@ != defs@[j as int].name@,
            decreases j - i,
        {
            if defs[i].name == defs[j].name {
                assert(defs@[i as int].name@ == defs@[j as int].name@);
                return Some(j);
            }
            i += 1;
        }
        j += 1;
    }
    None
}

/// The index of the definition of `name`, if any.
fn find_marker(defs: &Vec<MarkerDef>, name: &String) -> (r: Option<usize>)
    ensures
        match r {
            Some(k) => k < defs.len() && defs@[k as int].name@ == name@,
            None => !defines(defs@, name@),
        },
{
    let mut k: usize = 0;
    while k < defs.len()
        invariant
            k <= defs.len(),
            forall|m: int| 0 <= m < k ==> defs@[m].name@ != name@,
        decreases defs.len() - k,
    {
        if defs[k].name == *name {
            return Some(k);
        }
        k += 1;
    }
    None
}

/// Replaces each `goto` marker by the position its definition gives.
///
/// Fails on the first repeated definition, else on the first `goto` whose
/// marker has no definition.
pub fn resolve(instructions: Instructions, markers: &Vec<MarkerDef>) -> (r: Result<
    Program,
    ResolveError,
>)
    ensures
        !names_unique(markers@) <==> (r matches Err(ResolveError::DuplicateMarker(_))),
        r matches Err(ResolveError::DuplicateMarker(n)) ==> exists|j: int|
            0 <= j < markers@.len() && duplicate_at(markers@, j) && n@ == (
            #[trigger] markers@[j]).name@,
        names_unique(markers@) ==> ((exists|i: int|
            0 <= i < instructions.instructions@.len() && undefined_goto(
                #[trigger] instructions.instructions@[i],
                markers@,
            )) <==> r is Err),
        r matches Err(ResolveError::UndefinedMarker(n)) ==> exists|i: int|
            0 <= i < instructions.instructions@.len() && (forall|k: int|
                0 <= k < i ==> !undefined_goto(instructions.instructions@[k], markers@))
                && undefined_goto(#[trigger] instructions.instructions@[i], markers@)
                && goto_marker(instructions.instructions@[i]) == n@,
        r matches Ok(p) ==> {
            &&& all_concrete(p.instructions@)
            &&& p.instructions@.len() == instructions.instructions@.len()
            &&& forall|i: int|
                0 <= i < p.instructions@.len() ==> resolves_to(
                    instructions.instructions@[i],
                    #[trigger] p.instructions@[i],
                    markers@,
                )
        },
{
    if let Some(j) = first_duplicate(markers) {
        return Err(ResolveError::DuplicateMarker(markers[j].name.clone()));
    }
    let ghost orig = instructions.instructions@;
    let n = instructions.instructions.len();
    let mut i: usize = 0;
    while i < n
        invariant
            n == orig.len(),
            orig == instructions.instructions@,
            names_unique(markers@),
            i <= n,
            forall|k: int| 0 <= k < i ==> !undefined_goto(orig[k], markers@),
        decreases n - i,
    {
        if let Instruction::Goto(Dest::Marker(m)) = &instructions.instructions[i] {
            if find_marker(markers, m).is_none() {
                return Err(ResolveError::UndefinedMarker(m.clone()));
            }
        }
        i += 1;
    }
    let mut out: Vec<Instruction> = Vec::new();
    for inst in it: instructions.instructions
        invariant
            it.seq() == orig,
            forall|k: int| 0 <= k < orig.len() ==> !undefined_goto(orig[k], markers@),
            out@.len() == it.index(),
            forall|k: int| 0 <= k < out@.len() ==> resolves_to(orig[k], #[trigger] out@[k], markers@),
    {
        let ghost a = inst;
        assert(orig[it.index() as int] == a);
        let resolved = match inst {
            Instruction::Goto(Dest::Marker(m)) => {
                match find_marker(markers, &m) {
                    Some(k) => Instruction::Goto(Dest::Relative { row: markers[k].row, col: markers[k].col }),
                    None => Instruction::Goto(Dest::Marker(m)),
                }
            },
            other => other,
        };
        out.push(resolved);
    }
    Ok(Program { instructions: out })
}

} // verus!
