//! The mutable execution environment: turtle state, a variable table and a
//! procedure table, all living for one script run.
//!
//! The variable and procedure tables are flat: one namespace per run, no
//! lexical scoping, insert-or-update on write.

use vstd::prelude::*;
use crate::ast::{CmdV, Procedure, Variable, cmds_dv};
use crate::errors::{ErrV, LogoError};
use crate::num::{dec_int, spec_parse_i32};
use crate::text::str_eq;

verus! {

/// The number of colors in the canvas palette.
pub const PALETTE_SIZE: usize = 16;

/// The palette index the turtle starts with (white).
pub const DEFAULT_COLOR: usize = 7;

/// The turtle and its environment.
pub struct Turtle {
    pub pen_down: bool,
    /// A palette index, kept below `PALETTE_SIZE` by the execution engine.
    pub color: usize,
    /// Signed degrees, unbounded by any modulus.
    pub heading: i32,
    pub pos_x: i32,
    pub pos_y: i32,
    pub variables: Vec<Variable>,
    pub procedures: Vec<Procedure>,
}

/// The mathematical view of a recorded procedure.
#[verifier::ext_equal]
pub struct ProcV {
    pub name: Seq<char>,
    pub params: Seq<Seq<char>>,
    pub body: Seq<CmdV>,
}

/// The mathematical view of the whole environment.
#[verifier::ext_equal]
pub struct TurtleV {
    pub pen_down: bool,
    pub color: int,
    pub heading: int,
    pub x: int,
    pub y: int,
    pub vars: Seq<(Seq<char>, Seq<char>)>,
    pub procs: Seq<ProcV>,
}

impl View for Variable {
    type V = (Seq<char>, Seq<char>);

    open spec fn view(&self) -> (Seq<char>, Seq<char>) {
        (self.name@, self.value@)
    }
}

impl Procedure {
    /// The procedure as a mathematical record.
    pub open spec fn pv(self) -> ProcV {
        ProcV {
            name: self.name@,
            params: Seq::new(self.args@.len(), |i: int| self.args@[i]@),
            body: cmds_dv(self.commands@),
        }
    }
}

impl View for Turtle {
    type V = TurtleV;

    open spec fn view(&self) -> TurtleV {
        TurtleV {
            pen_down: self.pen_down,
            color: self.color as int,
            heading: self.heading as int,
            x: self.pos_x as int,
            y: self.pos_y as int,
            vars: Seq::new(self.variables@.len(), |i: int| self.variables@[i]@),
            procs: Seq::new(self.procedures@.len(), |i: int| self.procedures@[i].pv()),
        }
    }
}

/// A turtle view is well formed when its color is a palette index.
pub open spec fn turtle_wf(t: TurtleV) -> bool {
    0 <= t.color < PALETTE_SIZE as int
}

/// The index of the first binding of `name`, or the table length.
pub open spec fn find_var(vars: Seq<(Seq<char>, Seq<char>)>, name: Seq<char>) -> int
    decreases vars.len(),
{
    if vars.len() == 0 {
        0
    } else if vars[0].0 == name {
        0
    } else {
        1 + find_var(vars.skip(1), name)
    }
}

pub proof fn lemma_find_var_bounds(vars: Seq<(Seq<char>, Seq<char>)>, name: Seq<char>)
    ensures
        0 <= find_var(vars, name) <= vars.len(),
        forall|j: int| 0 <= j < find_var(vars, name) ==> vars[j].0 != name,
        find_var(vars, name) < vars.len() ==> vars[find_var(vars, name)].0 == name,
    decreases vars.len(),
{
    if vars.len() != 0 && vars[0].0 != name {
        lemma_find_var_bounds(vars.skip(1), name);
        assert forall|j: int| 0 <= j < find_var(vars, name) implies vars[j].0 != name by {
            if j > 0 {
                assert(vars.skip(1)[j - 1] == vars[j]);
            }
        }
        if find_var(vars, name) < vars.len() {
            assert(vars.skip(1)[find_var(vars, name) - 1] == vars[find_var(vars, name)]);
        }
    }
}

pub proof fn lemma_find_var_at(vars: Seq<(Seq<char>, Seq<char>)>, name: Seq<char>, k: int)
    requires
        0 <= k <= vars.len(),
        forall|j: int| 0 <= j < k ==> vars[j].0 != name,
        k < vars.len() ==> vars[k].0 == name,
    ensures
        find_var(vars, name) == k,
    decreases vars.len(),
{
    if vars.len() != 0 && vars[0].0 != name {
        lemma_find_var_at(vars.skip(1), name, k - 1);
    }
}

/// The text bound to `name`, if any.
pub open spec fn lookup_var(vars: Seq<(Seq<char>, Seq<char>)>, name: Seq<char>) -> Option<
    Seq<char>,
> {
    if find_var(vars, name) < vars.len() {
        Some(vars[find_var(vars, name)].1)
    } else {
        None
    }
}

/// The table after binding `name` to `value`: an update in place when the
/// name exists, an appended binding otherwise; all other entries kept.
pub open spec fn write_var(
    vars: Seq<(Seq<char>, Seq<char>)>,
    name: Seq<char>,
    value: Seq<char>,
) -> Seq<(Seq<char>, Seq<char>)> {
    if find_var(vars, name) < vars.len() {
        vars.update(find_var(vars, name), (name, value))
    } else {
        vars.push((name, value))
    }
}

/// The table after adding `delta` to the integer text bound to `name`, or
/// the fatal error that forbids it: an absent name, or text that is not a
/// machine integer, or a sum that leaves the machine range.
pub open spec fn add_var(
    vars: Seq<(Seq<char>, Seq<char>)>,
    name: Seq<char>,
    delta: int,
) -> Result<Seq<(Seq<char>, Seq<char>)>, ErrV> {
    let j = find_var(vars, name);
    if j >= vars.len() {
        Err(ErrV::VariableNotFound { name: name })
    } else {
        match spec_parse_i32(vars[j].1) {
            None => Err(ErrV::NonIntegerVariable { name: name }),
            Some(cur) => if -0x8000_0000 <= cur + delta <= 0x7fff_ffff {
                Ok(vars.update(j, (vars[j].0, dec_int(cur + delta))))
            } else {
                Err(ErrV::ArithmeticOverflow)
            },
        }
    }
}

/// The index of the first procedure named `name`, or the table length.
pub open spec fn find_proc(procs: Seq<ProcV>, name: Seq<char>) -> int
    decreases procs.len(),
{
    if procs.len() == 0 {
        0
    } else if procs[0].name == name {
        0
    } else {
        1 + find_proc(procs.skip(1), name)
    }
}

pub proof fn lemma_find_proc_bounds(procs: Seq<ProcV>, name: Seq<char>)
    ensures
        0 <= find_proc(procs, name) <= procs.len(),
        forall|j: int| 0 <= j < find_proc(procs, name) ==> procs[j].name != name,
        find_proc(procs, name) < procs.len() ==> procs[find_proc(procs, name)].name == name,
    decreases procs.len(),
{
    if procs.len() != 0 && procs[0].name != name {
        lemma_find_proc_bounds(procs.skip(1), name);
        assert forall|j: int| 0 <= j < find_proc(procs, name) implies procs[j].name != name by {
            if j > 0 {
                assert(procs.skip(1)[j - 1] == procs[j]);
            }
        }
        if find_proc(procs, name) < procs.len() {
            assert(procs.skip(1)[find_proc(procs, name) - 1] == procs[find_proc(procs, name)]);
        }
    }
}

pub proof fn lemma_find_proc_at(procs: Seq<ProcV>, name: Seq<char>, k: int)
    requires
        0 <= k <= procs.len(),
        forall|j: int| 0 <= j < k ==> procs[j].name != name,
        k < procs.len() ==> procs[k].name == name,
    ensures
        find_proc(procs, name) == k,
    decreases procs.len(),
{
    if procs.len() != 0 && procs[0].name != name {
        lemma_find_proc_at(procs.skip(1), name, k - 1);
    }
}

/// The table after recording a definition: insert-or-overwrite by name.
pub open spec fn define_proc(procs: Seq<ProcV>, p: ProcV) -> Seq<ProcV> {
    if find_proc(procs, p.name) < procs.len() {
        procs.update(find_proc(procs, p.name), p)
    } else {
        procs.push(p)
    }
}

impl Turtle {
    /// A fresh environment for one script run: turtle at the canvas center,
    /// pen up, default color, heading `0`, empty tables.
    pub fn new(width: u32, height: u32) -> (r: Turtle)
        requires
            width <= 0x7fff_ffff,
            height <= 0x7fff_ffff,
        ensures
            r@.pen_down == false,
            r@.color == DEFAULT_COLOR as int,
            r@.heading == 0,
            r@.x == width as int / 2,
            r@.y == height as int / 2,
            r@.vars =~= Seq::<(Seq<char>, Seq<char>)>::empty(),
            r@.procs =~= Seq::<ProcV>::empty(),
            turtle_wf(r@),
    {
        let r = Turtle {
            pen_down: false,
            color: DEFAULT_COLOR,
            heading: 0,
            pos_x: (width / 2) as i32,
            pos_y: (height / 2) as i32,
            variables: Vec::new(),
            procedures: Vec::new(),
        };
        proof {
            assert(r@.vars =~= Seq::<(Seq<char>, Seq<char>)>::empty());
            assert(r@.procs =~= Seq::<ProcV>::empty());
        }
        r
    }

    /// The text bound to a variable, or `None` when it was never defined.
    pub fn read_variable(&self, name: &str) -> (r: Option<String>)
        ensures
            match r {
                Some(v) => lookup_var(self@.vars, name@) == Some(v@),
                None => lookup_var(self@.vars, name@) is None,
            },
    {
        let n = self.variables.len();
        let mut i: usize = 0;
        while i < n
            invariant
                n == self.variables@.len(),
                i <= n,
                forall|j: int| 0 <= j < i ==> self@.vars[j].0 != name@,
            decreases n - i,
        {
            if str_eq(self.variables[i].name.as_str(), name) {
                proof {
                    assert(self@.vars[i as int].0 == name@);
                    lemma_find_var_at(self@.vars, name@, i as int);
                }
                return Some(self.variables[i].value.clone());
            }
            proof {
                assert(self@.vars[i as int].0 == self.variables@[i as int].name@);
            }
            i = i + 1;
        }
        proof {
            lemma_find_var_at(self@.vars, name@, n as int);
        }
        None
    }

    /// Binds `name` to `value`, updating an existing binding in place and
    /// appending a new one otherwise; every other binding is preserved.
    pub fn write_variable(&mut self, name: &str, value: String)
        ensures
            final(self)@.vars == write_var(old(self)@.vars, name@, value@),
            final(self)@.pen_down == old(self)@.pen_down,
            final(self)@.color == old(self)@.color,
            final(self)@.heading == old(self)@.heading,
            final(self)@.x == old(self)@.x,
            final(self)@.y == old(self)@.y,
            final(self)@.procs == old(self)@.procs,
    {
        let ghost vars0 = self@.vars;
        let n = self.variables.len();
        let mut i: usize = 0;
        while i < n
            invariant
                n == self.variables@.len(),
                i <= n,
                self@ == old(self)@,
                vars0 == self@.vars,
                forall|j: int| 0 <= j < i ==> self@.vars[j].0 != name@,
            decreases n - i,
        {
            if str_eq(self.variables[i].name.as_str(), name) {
                proof {
                    assert(self@.vars[i as int].0 == name@);
                    lemma_find_var_at(self@.vars, name@, i as int);
                }
                let v = Variable { name: name.to_owned(), value };
                self.variables[i] = v;
                proof {
                    assert(self@.vars =~= write_var(vars0, name@, value@));
                    assert(self@.procs =~= old(self)@.procs);
                }
                return;
            }
            proof {
                assert(self@.vars[i as int].0 == self.variables@[i as int].name@);
            }
            i = i + 1;
        }
        proof {
            lemma_find_var_at(self@.vars, name@, n as int);
        }
        self.variables.push(
            Variable { name: name.to_owned(), value },
        );
        proof {
            assert(self@.vars =~= write_var(vars0, name@, value@));
            assert(self@.procs =~= old(self)@.procs);
        }
    }

    /// Adds an integer to the text bound to `name`; fatal when the variable
    /// is absent, holds non-integer text, or the sum leaves the machine range.
    pub fn add_to_variable(&mut self, name: &str, delta: i32) -> (r: Result<(), LogoError>)
        ensures
            match r {
                Ok(_) => {
                    &&& add_var(old(self)@.vars, name@, delta as int) is Ok
                    &&& final(self)@.vars == add_var(old(self)@.vars, name@, delta as int)->Ok_0
                    &&& final(self)@.pen_down == old(self)@.pen_down
                    &&& final(self)@.color == old(self)@.color
                    &&& final(self)@.heading == old(self)@.heading
                    &&& final(self)@.x == old(self)@.x
                    &&& final(self)@.y == old(self)@.y
                    &&& final(self)@.procs == old(self)@.procs
                },
                Err(e) => {
                    &&& add_var(old(self)@.vars, name@, delta as int) is Err
                    &&& e@ == add_var(old(self)@.vars, name@, delta as int)->Err_0
                    &&& final(self)@ == old(self)@
                },
            },
    {
        let ghost vars0 = self@.vars;
        let n = self.variables.len();
        let mut i: usize = 0;
        while i < n
            invariant
                n == self.variables@.len(),
                i <= n,
                self@ == old(self)@,
                vars0 == self@.vars,
                forall|j: int| 0 <= j < i ==> self@.vars[j].0 != name@,
            decreases n - i,
        {
            if str_eq(self.variables[i].name.as_str(), name) {
                proof {
                    assert(self@.vars[i as int].0 == name@);
                    lemma_find_var_at(self@.vars, name@, i as int);
                }
                match crate::num::parse_i32(self.variables[i].value.as_str()) {
                    None => {
                        proof {
                            assert(self@.vars[i as int].1 == self.variables@[i as int].value@);
                        }
                        return Err(LogoError::NonIntegerVariable { name: name.to_owned() });
                    },
                    Some(cur) => {
                        let sum: i64 = cur as i64 + delta as i64;
                        if sum < -0x8000_0000i64 || sum > 0x7fff_ffffi64 {
                            return Err(LogoError::ArithmeticOverflow);
                        }
                        let v = Variable {
                            name: self.variables[i].name.clone(),
                            value: crate::num::int_to_string(sum as i32),
                        };
                        self.variables[i] = v;
                        proof {
                            assert(self@.vars =~= add_var(vars0, name@, delta as int)->Ok_0);
                            assert(self@.procs =~= old(self)@.procs);
                        }
                        return Ok(());
                    },
                }
            }
            proof {
                assert(self@.vars[i as int].0 == self.variables@[i as int].name@);
            }
            i = i + 1;
        }
        proof {
            lemma_find_var_at(self@.vars, name@, n as int);
        }
        Err(LogoError::VariableNotFound { name: name.to_owned() })
    }

    /// Records a procedure definition, overwriting any earlier one of the
    /// same name.
    pub fn define_procedure(&mut self, p: Procedure)
        ensures
            final(self)@.procs == define_proc(old(self)@.procs, p.pv()),
            final(self)@.pen_down == old(self)@.pen_down,
            final(self)@.color == old(self)@.color,
            final(self)@.heading == old(self)@.heading,
            final(self)@.x == old(self)@.x,
            final(self)@.y == old(self)@.y,
            final(self)@.vars == old(self)@.vars,
    {
        let ghost procs0 = self@.procs;
        let n = self.procedures.len();
        let mut i: usize = 0;
        while i < n
            invariant
                n == self.procedures@.len(),
                i <= n,
                self@ == old(self)@,
                procs0 == self@.procs,
                forall|j: int| 0 <= j < i ==> self@.procs[j].name != p.name@,
            decreases n - i,
        {
            if str_eq(self.procedures[i].name.as_str(), p.name.as_str()) {
                proof {
                    assert(self@.procs[i as int].name == p.name@);
                    lemma_find_proc_at(self@.procs, p.name@, i as int);
                }
                self.procedures[i] = p;
                proof {
                    assert(self@.procs =~= define_proc(procs0, p.pv()));
                    assert(self@.vars =~= old(self)@.vars);
                }
                return;
            }
            proof {
                assert(self@.procs[i as int].name == self.procedures@[i as int].name@);
            }
            i = i + 1;
        }
        proof {
            lemma_find_proc_at(self@.procs, p.name@, n as int);
        }
        self.procedures.push(p);
        proof {
            assert(self@.procs =~= define_proc(procs0, p.pv()));
            assert(self@.vars =~= old(self)@.vars);
        }
    }

    /// The position of the procedure named `name` in the table, if defined.
    pub fn lookup_procedure(&self, name: &str) -> (r: Option<usize>)
        ensures
            match r {
                Some(ix) => ix < self@.procs.len() && find_proc(self@.procs, name@) == ix as int,
                None => find_proc(self@.procs, name@) == self@.procs.len(),
            },
    {
        let n = self.procedures.len();
        let mut i: usize = 0;
        while i < n
            invariant
                n == self.procedures@.len(),
                i <= n,
                forall|j: int| 0 <= j < i ==> self@.procs[j].name != name@,
            decreases n - i,
        {
            if str_eq(self.procedures[i].name.as_str(), name) {
                proof {
                    assert(self@.procs[i as int].name == name@);
                    lemma_find_proc_at(self@.procs, name@, i as int);
                }
                return Some(i);
            }
            proof {
                assert(self@.procs[i as int].name == self.procedures@[i as int].name@);
            }
            i = i + 1;
        }
        proof {
            lemma_find_proc_at(self@.procs, name@, n as int);
        }
        None
    }
}

} // verus!
