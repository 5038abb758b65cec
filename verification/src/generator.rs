//! The generator: statements to the lines of an x86-64 NASM program for Linux.
//!
//! Statements outside functions go to the entry code, statements inside a
//! function to the function bodies, constants to the data section. Each
//! function keeps a table of stack slots: the height at which each of its
//! variables and arguments was pushed; a variable is addressed as
//! `[rsp + (top - slot) * 8]`, one word further for arguments.
use vstd::prelude::*;
use crate::parser::{spec_is_int_lit, stmt_views};
use crate::text::lemma_views_take_next;
use crate::text::{
    chars_of, concat, concat_strings, contains, decimal, decimal_string, decimal_usize, has_substring, join,
    join_strings, lemma_views_push, lit, same, split, split_on, split_words, views, words,
};

verus! {

/// What the generator reports when it stops.
#[derive(Debug, Clone, PartialEq, Eq)]
pub enum GenErrorKind {
    /// A printed name is neither a variable of the function nor an integer
    /// constant; it carries the name.
    UndefinedVariable { name: String },
    /// A call passes a function call as an argument.
    FunctionAsArgument,
    /// A call passes another number of arguments than the function declares;
    /// it carries the callee's name.
    ArgumentCountMismatch { name: String, expected: usize, got: usize },
    /// A constant expression (constants hold literals only).
    ConstantExpression,
    /// An exit with several values that do not form an expression.
    InvalidExitValue,
    /// A function declared inside another.
    NestedFunction,
    /// `ret` outside a function.
    RetOutsideFunction,
    /// A call statement names a function that has no table.
    UndefinedFunction,
    /// A statement whose first entry names no statement kind the generator knows.
    UnknownStatement,
    /// A constant whose type is neither `int` nor `str`.
    UnknownConstantType,
    /// The generation stops short: it reads past the end of a statement, looks
    /// up a scope or table that does not exist, or a stack offset leaves `i32`.
    Aborted,
}

/// A generator error, by the characters of the names it carries.
pub enum GenErrorKindView {
    UndefinedVariable { name: Seq<char> },
    FunctionAsArgument,
    ArgumentCountMismatch { name: Seq<char>, expected: usize, got: usize },
    ConstantExpression,
    InvalidExitValue,
    NestedFunction,
    RetOutsideFunction,
    UndefinedFunction,
    UnknownStatement,
    UnknownConstantType,
    Aborted,
}

impl View for GenErrorKind {
    type V = GenErrorKindView;

    open spec fn view(&self) -> GenErrorKindView {
        match self {
            GenErrorKind::UndefinedVariable { name } => GenErrorKindView::UndefinedVariable { name: name@ },
            GenErrorKind::FunctionAsArgument => GenErrorKindView::FunctionAsArgument,
            GenErrorKind::ArgumentCountMismatch { name, expected, got } => GenErrorKindView::ArgumentCountMismatch {
                name: name@,
                expected: *expected,
                got: *got,
            },
            GenErrorKind::ConstantExpression => GenErrorKindView::ConstantExpression,
            GenErrorKind::InvalidExitValue => GenErrorKindView::InvalidExitValue,
            GenErrorKind::NestedFunction => GenErrorKindView::NestedFunction,
            GenErrorKind::RetOutsideFunction => GenErrorKindView::RetOutsideFunction,
            GenErrorKind::UndefinedFunction => GenErrorKindView::UndefinedFunction,
            GenErrorKind::UnknownStatement => GenErrorKindView::UnknownStatement,
            GenErrorKind::UnknownConstantType => GenErrorKindView::UnknownConstantType,
            GenErrorKind::Aborted => GenErrorKindView::Aborted,
        }
    }
}

/// A generator error and the index of the statement that raised it.
#[derive(Debug, Clone, PartialEq, Eq)]
pub struct GenError {
    pub at: usize,
    pub kind: GenErrorKind,
}

/// A generator error with its statement's index, by characters.
pub struct GenErrorView {
    pub at: usize,
    pub kind: GenErrorKindView,
}

impl View for GenError {
    type V = GenErrorView;

    open spec fn view(&self) -> GenErrorView {
        GenErrorView { at: self.at, kind: self.kind@ }
    }
}

// ---------------------------------------------------------------------------
// The model of the generator's tables
// ---------------------------------------------------------------------------

/// A function's table, by the characters of its strings.
pub struct GenScopeView {
    pub name: Seq<char>,
    pub args_int: Seq<Seq<char>>,
    pub args_names: Seq<Seq<char>>,
    pub vars_int: Seq<Seq<char>>,
    pub vars_names: Seq<Seq<char>>,
    pub slot_names: Seq<Seq<char>>,
    pub slots: Seq<i32>,
}

/// A function's table: its typed arguments and variables, and the stack slot
/// of each (`slot_names[k]` sits at height `slots[k]`).
pub struct GenScope {
    pub name: String,
    pub args_int: Vec<String>,
    pub args_names: Vec<String>,
    pub vars_int: Vec<String>,
    pub vars_names: Vec<String>,
    pub slot_names: Vec<String>,
    pub slots: Vec<i32>,
}

impl View for GenScope {
    type V = GenScopeView;

    open spec fn view(&self) -> GenScopeView {
        GenScopeView {
            name: self.name@,
            args_int: views(self.args_int@),
            args_names: views(self.args_names@),
            vars_int: views(self.vars_int@),
            vars_names: views(self.vars_names@),
            slot_names: views(self.slot_names@),
            slots: self.slots@,
        }
    }
}

/// The generator's tables, by the characters of their strings.
pub struct GenTablesView {
    pub const_int: Option<Seq<Seq<char>>>,
    pub scopes: Seq<GenScopeView>,
}

/// The generator's tables: the integer constants (a table that a function
/// named `const` replaces, whereupon `const_table` is false) and the functions.
pub struct GenTables {
    pub const_table: bool,
    pub const_int: Vec<String>,
    pub scopes: Vec<GenScope>,
}

/// The views of a list of function tables.
pub open spec fn gen_scope_views(v: Seq<GenScope>) -> Seq<GenScopeView> {
    Seq::new(v.len(), |i: int| v[i]@)
}

impl View for GenTables {
    type V = GenTablesView;

    open spec fn view(&self) -> GenTablesView {
        GenTablesView {
            const_int: if self.const_table {
                Some(views(self.const_int@))
            } else {
                None
            },
            scopes: gen_scope_views(self.scopes@),
        }
    }
}

/// The index of the first function table of the given name, or -1.
pub open spec fn gen_scope_index_from(scopes: Seq<GenScopeView>, name: Seq<char>, k: int) -> int
    decreases scopes.len() - k,
{
    if k < 0 || k >= scopes.len() {
        -1
    } else if scopes[k].name == name {
        k
    } else {
        gen_scope_index_from(scopes, name, k + 1)
    }
}

/// The table of a function, if there is one of that name.
pub open spec fn gen_scope_of(t: GenTablesView, name: Seq<char>) -> Option<GenScopeView> {
    let k = gen_scope_index_from(t.scopes, name, 0);
    if k < 0 {
        None
    } else {
        Some(t.scopes[k])
    }
}

/// A table lookup by name gives -1 or the index of a table of that name.
pub proof fn lemma_gen_scope_index(scopes: Seq<GenScopeView>, name: Seq<char>, k: int)
    requires
        0 <= k,
    ensures
        gen_scope_index_from(scopes, name, k) == -1 || (k <= gen_scope_index_from(scopes, name, k)
            < scopes.len() && scopes[gen_scope_index_from(scopes, name, k)].name == name),
    decreases scopes.len() - k,
{
    if k < scopes.len() && scopes[k].name != name {
        lemma_gen_scope_index(scopes, name, k + 1);
    }
}

/// The slot index of a name in a function's table, or -1.
pub open spec fn slot_index_from(names: Seq<Seq<char>>, name: Seq<char>, k: int) -> int
    decreases names.len() - k,
{
    if k < 0 || k >= names.len() {
        -1
    } else if names[k] == name {
        k
    } else {
        slot_index_from(names, name, k + 1)
    }
}

/// A slot lookup by name gives -1 or the index of that name.
pub proof fn lemma_slot_index(names: Seq<Seq<char>>, name: Seq<char>, k: int)
    requires
        0 <= k,
    ensures
        slot_index_from(names, name, k) == -1 || (k <= slot_index_from(names, name, k)
            < names.len() && names[slot_index_from(names, name, k)] == name),
    decreases names.len() - k,
{
    if k < names.len() && names[k] != name {
        lemma_slot_index(names, name, k + 1);
    }
}

/// Whether a function table has a slot for the name.
pub open spec fn has_slot(sc: GenScopeView, name: Seq<char>) -> bool {
    slot_index_from(sc.slot_names, name, 0) >= 0
}

/// The height of a name's slot (meaningful when it has one).
pub open spec fn slot_of(sc: GenScopeView, name: Seq<char>) -> i32 {
    sc.slots[slot_index_from(sc.slot_names, name, 0)]
}

/// The greatest of -1 and the first `k` slot heights.
pub open spec fn max_slot(slots: Seq<i32>, k: int) -> i32
    decreases k,
{
    if k <= 0 || k > slots.len() {
        -1i32
    } else if slots[k - 1] > max_slot(slots, k - 1) {
        slots[k - 1]
    } else {
        max_slot(slots, k - 1)
    }
}

/// The top of a function's stack: the greatest slot height, and at least -1.
pub open spec fn spec_stack_height(sc: GenScopeView) -> i32 {
    max_slot(sc.slots, sc.slots.len() as int)
}

/// Whether a value fits in `i32`.
pub open spec fn fits_i32(x: int) -> bool {
    i32::MIN <= x <= i32::MAX
}

/// The byte offset from `rsp` of a name's slot: eight bytes per slot above it,
/// plus eight for an argument of a named function and `extra` more; `None` when
/// a step leaves `i32`.
pub open spec fn slot_offset(sc: GenScopeView, curr: Seq<char>, name: Seq<char>, extra: int) -> Option<
    i32,
> {
    let d = spec_stack_height(sc) - slot_of(sc, name);
    let o = d * 8;
    let o2 = if curr != Seq::<char>::empty() && sc.args_names.contains(name) {
        o + 8
    } else {
        o
    };
    if !fits_i32(d) || !fits_i32(o) || !fits_i32(o2) || !fits_i32(o2 + extra) {
        None
    } else {
        Some((o2 + extra) as i32)
    }
}

// ---------------------------------------------------------------------------
// Small helpers
// ---------------------------------------------------------------------------

/// Whether a statement entry is a call (`fcall ...`).
pub open spec fn spec_gen_is_fnc_call(t: Seq<char>) -> bool {
    has_substring(t, "fcall"@)
}

/// Whether a statement entry is a call: it holds `fcall`.
pub fn is_fnc_call(expr: &String) -> (b: bool)
    ensures
        b == spec_gen_is_fnc_call(expr@),
{
    contains(expr.as_str(), "fcall")
}

/// Whether every character of the entry is numeric; an empty entry counts.
pub fn is_int_lit(tok: &String) -> (b: bool)
    ensures
        b == spec_is_int_lit(tok@),
{
    crate::parser::is_int_lit(tok)
}

/// Whether an entry holds one of the operator names.
pub open spec fn spec_gen_is_bin_expr(t: Seq<char>) -> bool {
    has_substring(t, "PLUS"@) || has_substring(t, "TIMES"@) || has_substring(t, "MIN"@)
        || has_substring(t, "DIV"@)
}

/// Whether an entry is a binary step: it holds `PLUS`, `TIMES`, `MIN` or `DIV`.
pub fn is_bin_expr(expr: &String) -> (b: bool)
    ensures
        b == spec_gen_is_bin_expr(expr@),
{
    let s = expr.as_str();
    contains(s, "PLUS") || contains(s, "TIMES") || contains(s, "MIN") || contains(s, "DIV")
}

/// Whether every entry is a binary step (true of no entries).
pub open spec fn spec_has_bin_expr(e: Seq<Seq<char>>) -> bool {
    forall|k: int| 0 <= k < e.len() ==> spec_gen_is_bin_expr(#[trigger] e[k])
}

/// Whether every entry is a binary step.
pub fn has_bin_expr(exprs: &[String]) -> (b: bool)
    ensures
        b == spec_has_bin_expr(views(exprs@)),
{
    let mut k: usize = 0;
    while k < exprs.len()
        invariant
            k <= exprs@.len(),
            forall|j: int| 0 <= j < k ==> spec_gen_is_bin_expr(#[trigger] views(exprs@)[j]),
        decreases exprs.len() - k,
    {
        if !is_bin_expr(&exprs[k]) {
            assert(!spec_gen_is_bin_expr(views(exprs@)[k as int]));
            return false;
        }
        k += 1;
    }
    true
}

/// The number of characters of a constant's text.
pub fn get_constant_len(constant: &String) -> (r: i32)
    requires
        constant@.len() <= i32::MAX,
    ensures
        r as int == constant@.len(),
{
    let c = chars_of(constant.as_str());
    let mut size: i32 = 0;
    let mut k: usize = 0;
    while k < c.len()
        invariant
            c@ == constant@,
            k <= c.len(),
            size as int == k,
            c.len() <= i32::MAX,
        decreases c.len() - k,
    {
        size += 1;
        k += 1;
    }
    size
}

/// The top of a function's stack (see `spec_stack_height`).
pub fn get_stack_height(stack: &GenScope) -> (r: i32)
    ensures
        r == spec_stack_height(stack@),
{
    let mut count: i32 = -1;
    let mut k: usize = 0;
    while k < stack.slots.len()
        invariant
            k <= stack.slots@.len(),
            count == max_slot(stack.slots@, k as int),
        decreases stack.slots.len() - k,
    {
        if stack.slots[k] > count {
            count = stack.slots[k];
        }
        k += 1;
    }
    count
}

/// A line `    mov reg, val`.
pub open spec fn mov_line(reg: Seq<char>, val: Seq<char>) -> Seq<char> {
    "    mov "@ + reg + ", "@ + val
}

/// A line `    push reg`.
pub open spec fn push_line(reg: Seq<char>) -> Seq<char> {
    "    push "@ + reg
}

/// Lines that put a value in a register and push it.
pub open spec fn spec_move_to_stack(reg: Seq<char>, val: Seq<char>, out: Seq<Seq<char>>) -> Seq<
    Seq<char>,
> {
    out.push(mov_line(reg, val)).push(push_line(reg))
}

/// Appends the lines that put a value in a register and push it.
pub fn move_to_stack(reg: &String, val: &String, out: Vec<String>) -> (r: Vec<String>)
    ensures
        views(r@) == spec_move_to_stack(reg@, val@, views(out@)),
{
    let mut out = out;
    let ghost a0 = out@;
    let mut l1 = lit("    mov ");
    l1.append(reg.as_str());
    l1.append(", ");
    l1.append(val.as_str());
    let mut l2 = lit("    push ");
    l2.append(reg.as_str());
    out.push(l1);
    out.push(l2);
    proof {
        lemma_views_push(a0, l1);
        lemma_views_push(a0.push(l1), l2);
    }
    out
}

/// A list of lines by the characters of each.
pub open spec fn gen_result(r: Result<Vec<String>, GenErrorKind>) -> Result<Seq<Seq<char>>, GenErrorKindView> {
    match r {
        Ok(v) => Ok(views(v@)),
        Err(x) => Err(x@),
    }
}

/// Appends one line.
fn push_str(out: &mut Vec<String>, line: String)
    ensures
        views(final(out)@) == views(old(out)@).push(line@),
{
    let ghost a0 = out@;
    out.push(line);
    proof {
        lemma_views_push(a0, line);
    }
}

/// The label line of a function.
pub fn gen_fnc_dec(name: &String, out: Vec<String>) -> (r: Vec<String>)
    ensures
        views(r@) == views(out@).push(name@ + ":"@),
{
    let mut out = out;
    let mut l = name.clone();
    l.append(":");
    push_str(&mut out, l);
    out
}


// ---------------------------------------------------------------------------
// Lookups
// ---------------------------------------------------------------------------

/// The offset of a name's slot before any addition (see `slot_offset`).
pub open spec fn base_offset(sc: GenScopeView, curr: Seq<char>, name: Seq<char>) -> Option<i32> {
    slot_offset(sc, curr, name, 0)
}

/// An offset with `x` added, `None` when it leaves `i32` or was `None`.
pub open spec fn add_off(o: Option<i32>, x: int) -> Option<i32> {
    match o {
        None => None,
        Some(v) => if fits_i32(v + x) {
            Some((v + x) as i32)
        } else {
            None
        },
    }
}

/// The text `[rsp + offset]`.
pub open spec fn rsp_at(o: i32) -> Seq<char> {
    "[rsp + "@ + decimal(o as int) + "]"@
}

/// The text `[name]`.
pub open spec fn mem_at(v: Seq<char>) -> Seq<char> {
    "["@ + v + "]"@
}

impl GenTables {
    /// The index of a function's table.
    pub fn scope_index(&self, name: &str) -> (r: Option<usize>)
        ensures
            match r {
                Some(k) => gen_scope_of(self@, name@) == Some(self@.scopes[k as int]) && k
                    < self.scopes@.len() && k as int == gen_scope_index_from(self@.scopes, name@, 0),
                None => gen_scope_of(self@, name@) is None && gen_scope_index_from(
                    self@.scopes,
                    name@,
                    0,
                ) == -1,
            },
    {
        let mut k: usize = 0;
        while k < self.scopes.len()
            invariant
                k <= self.scopes@.len(),
                gen_scope_index_from(self@.scopes, name@, k as int) == gen_scope_index_from(
                    self@.scopes,
                    name@,
                    0,
                ),
            decreases self.scopes.len() - k,
        {
            assert(self@.scopes[k as int] == self.scopes@[k as int]@);
            if same(self.scopes[k].name.as_str(), name) {
                return Some(k);
            }
            k += 1;
        }
        None
    }
}

/// The index of a name's slot in a function's table.
fn slot_index(sc: &GenScope, name: &str) -> (r: Option<usize>)
    ensures
        match r {
            Some(k) => k as int == slot_index_from(sc@.slot_names, name@, 0) && k < sc.slot_names@.len(),
            None => slot_index_from(sc@.slot_names, name@, 0) == -1,
        },
{
    let mut k: usize = 0;
    while k < sc.slot_names.len()
        invariant
            k <= sc.slot_names@.len(),
            slot_index_from(sc@.slot_names, name@, k as int) == slot_index_from(
                sc@.slot_names,
                name@,
                0,
            ),
        decreases sc.slot_names.len() - k,
    {
        if same(sc.slot_names[k].as_str(), name) {
            return Some(k);
        }
        k += 1;
    }
    None
}

/// Whether a function's table has a slot for the name (exec form of `has_slot`).
fn has_slot_exec(sc: &GenScope, name: &str) -> (b: bool)
    ensures
        b == has_slot(sc@, name@),
{
    slot_index(sc, name).is_some()
}

/// The offset of a name's slot (exec form of `base_offset`).
fn base_offset_exec(sc: &GenScope, curr: &str, name: &str) -> (r: Option<i32>)
    requires
        has_slot(sc@, name@),
        sc@.slots.len() == sc@.slot_names.len(),
    ensures
        r == base_offset(sc@, curr@, name@),
{
    let k = match slot_index(sc, name) {
        Some(k) => k,
        None => {
            return None;
        },
    };
    let top = get_stack_height(sc) as i64;
    let d = top - sc.slots[k] as i64;
    proof {
        reveal_strlit("");
        assert(""@ =~= Seq::<char>::empty());
    }
    if d < i32::MIN as i64 || d > i32::MAX as i64 {
        return None;
    }
    let o = d * 8;
    if o < i32::MIN as i64 || o > i32::MAX as i64 {
        return None;
    }
    let o2 = if !same(curr, "") && crate::parser::list_contains(&sc.args_names, name) {
        o + 8
    } else {
        o
    };
    if o2 < i32::MIN as i64 || o2 > i32::MAX as i64 {
        return None;
    }
    Some(o2 as i32)
}

/// An offset with `x` added (exec form of `add_off`).
fn add_off_exec(o: Option<i32>, x: i64) -> (r: Option<i32>)
    requires
        i32::MIN <= x <= i32::MAX,
    ensures
        r == add_off(o, x as int),
{
    match o {
        None => None,
        Some(v) => {
            let w = v as i64 + x;
            if w < i32::MIN as i64 || w > i32::MAX as i64 {
                None
            } else {
                Some(w as i32)
            }
        },
    }
}

/// The text `[rsp + offset]` (exec form of `rsp_at`).
fn rsp_at_exec(o: i32) -> (r: String)
    ensures
        r@ == rsp_at(o),
{
    let mut r = lit("[rsp + ");
    let d = decimal_string(o as i64);
    r.append(d.as_str());
    r.append("]");
    r
}

/// The text `[name]` (exec form of `mem_at`).
fn mem_at_exec(v: &str) -> (r: String)
    ensures
        r@ == mem_at(v@),
{
    let mut r = lit("[");
    r.append(v);
    r.append("]");
    r
}

/// A line `    mov reg, val` (exec form of `mov_line`).
fn mov_line_exec(reg: &str, val: &str) -> (r: String)
    ensures
        r@ == mov_line(reg@, val@),
{
    let mut r = lit("    mov ");
    r.append(reg);
    r.append(", ");
    r.append(val);
    r
}

/// A line of the given text followed by a decimal number.
fn line_with_number(head: &str, n: i64) -> (r: String)
    ensures
        r@ == head@ + decimal(n as int),
{
    let mut r = lit(head);
    let d = decimal_string(n);
    r.append(d.as_str());
    r
}

/// Well-formed function tables: one slot height per slot name.
pub open spec fn tables_wf(t: GenTablesView) -> bool {
    forall|k: int| 0 <= k < t.scopes.len() ==> #[trigger] t.scopes[k].slots.len()
        == t.scopes[k].slot_names.len()
}

// ---------------------------------------------------------------------------
// Calls
// ---------------------------------------------------------------------------

/// The lines that push the arguments `parts[i..]` of a call, in order: a literal
/// as it is, a variable from its slot (further by the call's earlier pushes).
pub open spec fn call_arg_lines(
    parts: Seq<Seq<char>>,
    i: int,
    t: GenTablesView,
    curr: Seq<char>,
    in_print: bool,
    out: Seq<Seq<char>>,
) -> Result<Seq<Seq<char>>, GenErrorKindView>
    decreases parts.len() - i,
{
    if i < 0 || i >= parts.len() {
        Ok(out)
    } else {
        let arg = parts[i];
        if spec_is_int_lit(arg) {
            call_arg_lines(parts, i + 1, t, curr, in_print, spec_move_to_stack("rax"@, arg, out))
        } else {
            match gen_scope_of(t, curr) {
                None => Err(GenErrorKindView::Aborted),
                Some(sc) => if has_slot(sc, arg) {
                    let o = add_off(
                        base_offset(sc, curr, arg),
                        if in_print {
                            8
                        } else {
                            0
                        },
                    );
                    let m = (#[verifier::truncate] (i as i32)) as int * 8;
                    let o2 = if fits_i32(m) {
                        add_off(o, m)
                    } else {
                        None
                    };
                    match o2 {
                        None => Err(GenErrorKindView::Aborted),
                        Some(v) => call_arg_lines(
                            parts,
                            i + 1,
                            t,
                            curr,
                            in_print,
                            spec_move_to_stack("rax"@, rsp_at(v), out),
                        ),
                    }
                } else if spec_gen_is_fnc_call(arg) {
                    Err(GenErrorKindView::FunctionAsArgument)
                } else {
                    Err(GenErrorKindView::Aborted)
                },
            }
        }
    }
}

/// The lines of a call: the arguments (split at `,`) pushed, `call`, and the
/// stack restored. A call of an unknown function adds nothing.
pub open spec fn spec_gen_fnc_call(
    name: Seq<char>,
    args: Seq<Seq<char>>,
    t: GenTablesView,
    curr: Seq<char>,
    in_print: bool,
    out: Seq<Seq<char>>,
) -> Result<Seq<Seq<char>>, GenErrorKindView> {
    match gen_scope_of(t, name) {
        None => if name == "const"@ && t.const_int is Some {
            Err(GenErrorKindView::Aborted)
        } else {
            Ok(out)
        },
        Some(f) => {
            let parts = split_on(concat(args), ","@);
            if parts.len() != f.args_names.len() {
                Err(
                    GenErrorKindView::ArgumentCountMismatch {
                        name: name,
                        expected: f.args_names.len() as usize,
                        got: parts.len() as usize,
                    },
                )
            } else if parts.len() * 8 > usize::MAX {
                Err(GenErrorKindView::Aborted)
            } else {
                match call_arg_lines(parts, 0, t, curr, in_print, out) {
                    Err(x) => Err(x),
                    Ok(o2) => Ok(
                        o2.push("    call "@ + name).push(
                            "    add rsp, "@ + decimal((parts.len() * 8) as int),
                        ),
                    ),
                }
            }
        },
    }
}

/// The lines of a call (see `spec_gen_fnc_call`).
pub fn gen_fnc_call(
    name: &String,
    args: &[String],
    vars: &GenTables,
    curr_func: &String,
    in_print: bool,
    out: Vec<String>,
) -> (r: Result<Vec<String>, GenErrorKind>)
    requires
        tables_wf(vars@),
    ensures
        gen_result(r) == spec_gen_fnc_call(name@, views(args@), vars@, curr_func@, in_print, views(out@)),
{
    let mut code = out;
    let f = match vars.scope_index(name.as_str()) {
        None => {
            if same(name.as_str(), "const") && vars.const_table {
                return Err(GenErrorKind::Aborted);
            }
            return Ok(code);
        },
        Some(f) => f,
    };
    let all = concat_strings(args);
    proof {
        reveal_strlit(",");
    }
    let parts = split(all.as_str(), ",");
    let expected = vars.scopes[f].args_names.len();
    assert(vars@.scopes[f as int] == vars.scopes@[f as int]@);
    if parts.len() != expected {
        return Err(GenErrorKind::ArgumentCountMismatch { name: name.clone(), expected, got: parts.len() });
    }
    if parts.len() > usize::MAX / 8 {
        return Err(GenErrorKind::Aborted);
    }
    let ghost pv = views(parts@);
    let mut i: usize = 0;
    let ghost goal = call_arg_lines(pv, 0, vars@, curr_func@, in_print, views(code@));
    while i < parts.len()
        invariant
            pv == views(parts@),
            goal == call_arg_lines(pv, 0, vars@, curr_func@, in_print, views(out@)),
            gen_scope_of(vars@, name@) == Some(vars@.scopes[f as int]),
            pv == split_on(concat(views(args@)), ","@),
            pv.len() == vars@.scopes[f as int].args_names.len(),
            pv.len() * 8 <= usize::MAX,
            i <= parts@.len(),
            tables_wf(vars@),
            call_arg_lines(pv, i as int, vars@, curr_func@, in_print, views(code@)) == goal,
        decreases parts.len() - i,
    {
        let arg = &parts[i];
        assert(pv[i as int] == arg@);
        if is_int_lit(arg) {
            let rax = lit("rax");
            code = move_to_stack(&rax, arg, code);
        } else {
            match vars.scope_index(curr_func.as_str()) {
                None => {
                    return Err(GenErrorKind::Aborted);
                },
                Some(k) => {
                    let sc = &vars.scopes[k];
                    assert(vars@.scopes[k as int] == sc@);
                    if has_slot_exec(sc, arg.as_str()) {
                        let o = add_off_exec(
                            base_offset_exec(sc, curr_func.as_str(), arg.as_str()),
                            if in_print {
                                8
                            } else {
                                0
                            },
                        );
                        let ii = #[verifier::truncate] (i as i32);
                        let m = ii as i64 * 8;
                        let o2 = if m >= i32::MIN as i64 && m <= i32::MAX as i64 {
                            add_off_exec(o, m)
                        } else {
                            None
                        };
                        match o2 {
                            None => {
                                return Err(GenErrorKind::Aborted);
                            },
                            Some(v) => {
                                let rax = lit("rax");
                                let at = rsp_at_exec(v);
                                code = move_to_stack(&rax, &at, code);
                            },
                        }
                    } else if is_fnc_call(arg) {
                        return Err(GenErrorKind::FunctionAsArgument);
                    } else {
                        return Err(GenErrorKind::Aborted);
                    }
                },
            }
        }
        i += 1;
    }
    let mut l1 = lit("    call ");
    l1.append(name.as_str());
    push_str(&mut code, l1);
    let mut l2 = lit("    add rsp, ");
    let d = decimal_usize(parts.len() * 8);
    l2.append(d.as_str());
    push_str(&mut code, l2);
    Ok(code)
}


// ---------------------------------------------------------------------------
// Arithmetic
// ---------------------------------------------------------------------------

/// A line `    pop reg`.
pub open spec fn pop_line(reg: Seq<char>) -> Seq<char> {
    "    pop "@ + reg
}

/// The lines that load a variable's slot into `reg` (pushed, then popped).
pub open spec fn slot_load(reg: Seq<char>, o: i32, out: Seq<Seq<char>>) -> Seq<Seq<char>> {
    spec_move_to_stack(reg, rsp_at(o), out).push(pop_line(reg))
}

/// The lines of an operand `v` that is a call (`fcall!name!args...`), the
/// result left in `rax` (and copied to `rbx` for a right operand).
pub open spec fn call_operand(
    v: Seq<char>,
    is_rhs: bool,
    t: GenTablesView,
    curr: Seq<char>,
    in_print: bool,
    out: Seq<Seq<char>>,
) -> Result<Seq<Seq<char>>, GenErrorKindView> {
    let parts = split_on(v, "!"@);
    if parts.len() < 2 {
        Err(GenErrorKindView::Aborted)
    } else {
        match spec_gen_fnc_call(
            parts[1],
            parts.subrange(2, parts.len() as int),
            t,
            curr,
            in_print,
            out,
        ) {
            Err(x) => Err(x),
            Ok(o2) => if is_rhs {
                Ok(o2.push("mov rbx, rax"@))
            } else {
                Ok(o2)
            },
        }
    }
}

/// The lines that load an operand of an addition or subtraction into `reg`:
/// a literal directly, `STACK` by a pop, a variable from its slot, a call, or
/// a constant from memory.
pub open spec fn load_add_operand(
    v: Seq<char>,
    reg: Seq<char>,
    is_rhs: bool,
    t: GenTablesView,
    curr: Seq<char>,
    in_print: bool,
    out: Seq<Seq<char>>,
) -> Result<Seq<Seq<char>>, GenErrorKindView> {
    if spec_is_int_lit(v) {
        Ok(out.push(mov_line(reg, v)))
    } else if v == "STACK"@ {
        Ok(out.push(pop_line(reg)))
    } else {
        match gen_scope_of(t, curr) {
            None => Err(GenErrorKindView::Aborted),
            Some(sc) => if has_slot(sc, v) {
                match add_off(
                    base_offset(sc, curr, v),
                    if in_print {
                        8
                    } else {
                        0
                    },
                ) {
                    None => Err(GenErrorKindView::Aborted),
                    Some(o) => Ok(slot_load(reg, o, out)),
                }
            } else if has_substring(v, "fcall"@) {
                call_operand(v, is_rhs, t, curr, in_print, out)
            } else {
                Ok(out.push(mov_line(reg, mem_at(v))))
            },
        }
    }
}

/// The lines that load an operand of a multiplication or division into `reg`:
/// as for addition, except that `0` (the parser's mark for the stack) is popped
/// and `STACK` is read as a constant.
pub open spec fn load_mul_operand(
    v: Seq<char>,
    reg: Seq<char>,
    is_rhs: bool,
    t: GenTablesView,
    curr: Seq<char>,
    in_print: bool,
    out: Seq<Seq<char>>,
) -> Result<Seq<Seq<char>>, GenErrorKindView> {
    if v != "0"@ && spec_is_int_lit(v) {
        Ok(out.push(mov_line(reg, v)))
    } else {
        match gen_scope_of(t, curr) {
            None => Err(GenErrorKindView::Aborted),
            Some(sc) => if has_slot(sc, v) {
                match add_off(
                    base_offset(sc, curr, v),
                    if in_print {
                        8
                    } else {
                        0
                    },
                ) {
                    None => Err(GenErrorKindView::Aborted),
                    Some(o) => Ok(slot_load(reg, o, out)),
                }
            } else if has_substring(v, "fcall"@) {
                call_operand(v, is_rhs, t, curr, in_print, out)
            } else if v == "0"@ {
                Ok(out.push(pop_line(reg)))
            } else {
                Ok(out.push(mov_line(reg, mem_at(v))))
            },
        }
    }
}

/// Which arithmetic operation a step performs.
pub enum Arith {
    Add,
    Sub,
    Mul,
    Div,
}

/// The closing lines of an arithmetic step.
pub open spec fn arith_tail(op: Arith) -> Seq<Seq<char>> {
    match op {
        Arith::Add => seq!["    add rbx, rax"@, "    push rbx"@],
        Arith::Sub => seq!["    sub rax, rbx"@, "    push rax"@],
        Arith::Mul => seq!["    mul rbx"@, "    push rax"@],
        Arith::Div => seq!["    div rbx"@, "    push rax"@],
    }
}

/// The lines of an arithmetic step: the right operand into `rbx`, the left
/// into `rax`, the operation, and the result pushed.
pub open spec fn spec_gen_arith(
    op: Arith,
    lhs: Seq<char>,
    rhs: Seq<char>,
    t: GenTablesView,
    curr: Seq<char>,
    in_print: bool,
    out: Seq<Seq<char>>,
) -> Result<Seq<Seq<char>>, GenErrorKindView> {
    let is_add = op is Add || op is Sub;
    let r = if is_add {
        load_add_operand(rhs, "rbx"@, true, t, curr, in_print, out)
    } else {
        load_mul_operand(rhs, "rbx"@, true, t, curr, in_print, out)
    };
    match r {
        Err(x) => Err(x),
        Ok(o1) => {
            let l = if is_add {
                load_add_operand(lhs, "rax"@, false, t, curr, in_print, o1)
            } else {
                load_mul_operand(lhs, "rax"@, false, t, curr, in_print, o1)
            };
            match l {
                Err(x) => Err(x),
                Ok(o2) => Ok(o2 + arith_tail(op)),
            }
        },
    }
}

/// The lines of an operand that is a call (exec form of `call_operand`).
fn call_operand_exec(
    v: &String,
    is_rhs: bool,
    vars: &GenTables,
    curr: &String,
    in_print: bool,
    out: Vec<String>,
) -> (r: Result<Vec<String>, GenErrorKind>)
    requires
        tables_wf(vars@),
    ensures
        gen_result(r) == call_operand(v@, is_rhs, vars@, curr@, in_print, views(out@)),
{
    proof {
        reveal_strlit("!");
    }
    let parts = split(v.as_str(), "!");
    if parts.len() < 2 {
        return Err(GenErrorKind::Aborted);
    }
    let args = vstd::slice::slice_subrange(parts.as_slice(), 2, parts.len());
    assert(views(args@) =~= views(parts@).subrange(2, parts@.len() as int));
    assert(views(parts@)[1] == parts@[1]@);
    let mut code = gen_fnc_call(&parts[1], args, vars, curr, in_print, out)?;
    if is_rhs {
        push_str(&mut code, lit("mov rbx, rax"));
    }
    Ok(code)
}

/// The lines of a slot load (exec form of `slot_load`).
fn slot_load_exec(reg: &str, o: i32, out: Vec<String>) -> (r: Vec<String>)
    ensures
        views(r@) == slot_load(reg@, o, views(out@)),
{
    let r = lit(reg);
    let at = rsp_at_exec(o);
    let mut code = move_to_stack(&r, &at, out);
    let mut p = lit("    pop ");
    p.append(reg);
    push_str(&mut code, p);
    code
}

/// The lines that load an operand (exec form of `load_add_operand` and
/// `load_mul_operand`).
fn load_operand(
    v: &String,
    reg: &str,
    is_rhs: bool,
    for_add: bool,
    vars: &GenTables,
    curr: &String,
    in_print: bool,
    out: Vec<String>,
) -> (r: Result<Vec<String>, GenErrorKind>)
    requires
        tables_wf(vars@),
    ensures
        gen_result(r) == (if for_add {
            load_add_operand(v@, reg@, is_rhs, vars@, curr@, in_print, views(out@))
        } else {
            load_mul_operand(v@, reg@, is_rhs, vars@, curr@, in_print, views(out@))
        }),
{
    let mut code = out;
    let lit_val = is_int_lit(v);
    if for_add {
        if lit_val {
            push_str(&mut code, mov_line_exec(reg, v.as_str()));
            return Ok(code);
        }
        if same(v.as_str(), "STACK") {
            let mut p = lit("    pop ");
            p.append(reg);
            push_str(&mut code, p);
            return Ok(code);
        }
    } else if !same(v.as_str(), "0") && lit_val {
        push_str(&mut code, mov_line_exec(reg, v.as_str()));
        return Ok(code);
    }
    let k = match vars.scope_index(curr.as_str()) {
        None => {
            return Err(GenErrorKind::Aborted);
        },
        Some(k) => k,
    };
    let sc = &vars.scopes[k];
    assert(vars@.scopes[k as int] == sc@);
    assert(sc@.slots.len() == sc@.slot_names.len());
    if has_slot_exec(sc, v.as_str()) {
        let o = add_off_exec(
            base_offset_exec(sc, curr.as_str(), v.as_str()),
            if in_print {
                8
            } else {
                0
            },
        );
        match o {
            None => Err(GenErrorKind::Aborted),
            Some(o) => Ok(slot_load_exec(reg, o, code)),
        }
    } else if contains(v.as_str(), "fcall") {
        call_operand_exec(v, is_rhs, vars, curr, in_print, code)
    } else if !for_add && same(v.as_str(), "0") {
        let mut p = lit("    pop ");
        p.append(reg);
        push_str(&mut code, p);
        Ok(code)
    } else {
        let m = mem_at_exec(v.as_str());
        push_str(&mut code, mov_line_exec(reg, m.as_str()));
        Ok(code)
    }
}

/// The lines of an arithmetic step (exec form of `spec_gen_arith`).
fn gen_arith(
    op: Arith,
    lhs: &String,
    rhs: &String,
    vars: &GenTables,
    curr_func: &String,
    in_print: bool,
    out: Vec<String>,
) -> (r: Result<Vec<String>, GenErrorKind>)
    requires
        tables_wf(vars@),
    ensures
        gen_result(r) == spec_gen_arith(op, lhs@, rhs@, vars@, curr_func@, in_print, views(out@)),
{
    let is_add = match op {
        Arith::Add => true,
        Arith::Sub => true,
        _ => false,
    };
    let o1 = load_operand(rhs, "rbx", true, is_add, vars, curr_func, in_print, out)?;
    let mut code = load_operand(lhs, "rax", false, is_add, vars, curr_func, in_print, o1)?;
    let ghost c0 = views(code@);
    match op {
        Arith::Add => {
            push_str(&mut code, lit("    add rbx, rax"));
            push_str(&mut code, lit("    push rbx"));
        },
        Arith::Sub => {
            push_str(&mut code, lit("    sub rax, rbx"));
            push_str(&mut code, lit("    push rax"));
        },
        Arith::Mul => {
            push_str(&mut code, lit("    mul rbx"));
            push_str(&mut code, lit("    push rax"));
        },
        Arith::Div => {
            push_str(&mut code, lit("    div rbx"));
            push_str(&mut code, lit("    push rax"));
        },
    }
    assert(views(code@) =~= c0 + arith_tail(op));
    Ok(code)
}

/// The lines of an addition (see `spec_gen_arith`).
pub fn gen_add(
    lhs: &String,
    rhs: &String,
    vars: &GenTables,
    curr_func: &String,
    in_print: bool,
    out: Vec<String>,
) -> (r: Result<Vec<String>, GenErrorKind>)
    requires
        tables_wf(vars@),
    ensures
        gen_result(r) == spec_gen_arith(Arith::Add, lhs@, rhs@, vars@, curr_func@, in_print, views(out@)),
{
    gen_arith(Arith::Add, lhs, rhs, vars, curr_func, in_print, out)
}

/// The lines of a subtraction (see `spec_gen_arith`).
pub fn gen_sub(
    lhs: &String,
    rhs: &String,
    vars: &GenTables,
    curr_func: &String,
    in_print: bool,
    out: Vec<String>,
) -> (r: Result<Vec<String>, GenErrorKind>)
    requires
        tables_wf(vars@),
    ensures
        gen_result(r) == spec_gen_arith(Arith::Sub, lhs@, rhs@, vars@, curr_func@, in_print, views(out@)),
{
    gen_arith(Arith::Sub, lhs, rhs, vars, curr_func, in_print, out)
}

/// The lines of a multiplication (see `spec_gen_arith`).
pub fn gen_mul(
    lhs: &String,
    rhs: &String,
    vars: &GenTables,
    curr_func: &String,
    in_print: bool,
    out: Vec<String>,
) -> (r: Result<Vec<String>, GenErrorKind>)
    requires
        tables_wf(vars@),
    ensures
        gen_result(r) == spec_gen_arith(Arith::Mul, lhs@, rhs@, vars@, curr_func@, in_print, views(out@)),
{
    gen_arith(Arith::Mul, lhs, rhs, vars, curr_func, in_print, out)
}

/// The lines of a division (see `spec_gen_arith`).
pub fn gen_div(
    lhs: &String,
    rhs: &String,
    vars: &GenTables,
    curr_func: &String,
    in_print: bool,
    out: Vec<String>,
) -> (r: Result<Vec<String>, GenErrorKind>)
    requires
        tables_wf(vars@),
    ensures
        gen_result(r) == spec_gen_arith(Arith::Div, lhs@, rhs@, vars@, curr_func@, in_print, views(out@)),
{
    gen_arith(Arith::Div, lhs, rhs, vars, curr_func, in_print, out)
}

/// The lines of the binary steps `e[i..]`: each step `lhs OP rhs` (cut at
/// spaces) is generated by the first operator name it holds, in the order
/// `PLUS`, `TIMES`, `MIN`, `DIV`; a step without one adds nothing.
pub open spec fn bin_steps(
    e: Seq<Seq<char>>,
    i: int,
    t: GenTablesView,
    curr: Seq<char>,
    in_print: bool,
    out: Seq<Seq<char>>,
) -> Result<Seq<Seq<char>>, GenErrorKindView>
    decreases e.len() - i,
{
    if i < 0 || i >= e.len() {
        Ok(out)
    } else {
        let x = e[i];
        let parts = split_on(x, " "@);
        let op = if has_substring(x, "PLUS"@) {
            Some(Arith::Add)
        } else if has_substring(x, "TIMES"@) {
            Some(Arith::Mul)
        } else if has_substring(x, "MIN"@) {
            Some(Arith::Sub)
        } else if has_substring(x, "DIV"@) {
            Some(Arith::Div)
        } else {
            None
        };
        match op {
            None => bin_steps(e, i + 1, t, curr, in_print, out),
            Some(op) => if parts.len() < 3 {
                Err(GenErrorKindView::Aborted)
            } else {
                match spec_gen_arith(op, parts[0], parts[2], t, curr, in_print, out) {
                    Err(x) => Err(x),
                    Ok(o2) => bin_steps(e, i + 1, t, curr, in_print, o2),
                }
            },
        }
    }
}

/// The lines of a list of binary steps (see `bin_steps`).
pub fn gen_bin_expr(
    expr: &[String],
    vars: &GenTables,
    curr_func: &String,
    in_print: bool,
    out: Vec<String>,
) -> (r: Result<Vec<String>, GenErrorKind>)
    requires
        tables_wf(vars@),
    ensures
        gen_result(r) == bin_steps(views(expr@), 0, vars@, curr_func@, in_print, views(out@)),
{
    let mut code = out;
    let mut i: usize = 0;
    while i < expr.len()
        invariant
            i <= expr@.len(),
            tables_wf(vars@),
            bin_steps(views(expr@), i as int, vars@, curr_func@, in_print, views(code@)) == bin_steps(
                views(expr@),
                0,
                vars@,
                curr_func@,
                in_print,
                views(out@),
            ),
        decreases expr.len() - i,
    {
        let x = expr[i].as_str();
        assert(views(expr@)[i as int] == x@);
        let op = if contains(x, "PLUS") {
            Some(Arith::Add)
        } else if contains(x, "TIMES") {
            Some(Arith::Mul)
        } else if contains(x, "MIN") {
            Some(Arith::Sub)
        } else if contains(x, "DIV") {
            Some(Arith::Div)
        } else {
            None
        };
        match op {
            None => {
            },
            Some(op) => {
                proof {
                    reveal_strlit(" ");
                }
                let parts = split(x, " ");
                if parts.len() < 3 {
                    return Err(GenErrorKind::Aborted);
                }
                assert(views(parts@)[0] == parts@[0]@ && views(parts@)[2] == parts@[2]@);
                code = gen_arith(op, &parts[0], &parts[2], vars, curr_func, in_print, code)?;
            },
        }
        i += 1;
    }
    Ok(code)
}


// ---------------------------------------------------------------------------
// Prints
// ---------------------------------------------------------------------------

/// The reverse of a sequence.
pub open spec fn reversed<T>(s: Seq<T>) -> Seq<T> {
    Seq::new(s.len(), |i: int| s[s.len() - 1 - i])
}

/// The text `('c' << shift)`: one character placed at a bit offset.
pub open spec fn char_piece(ch: char, shift: int) -> Seq<char> {
    "('"@ + seq![ch] + "' << "@ + decimal(shift) + ")"@
}

/// The text `(10 << shift)`: a newline placed at a bit offset.
pub open spec fn newline_piece(shift: int) -> Seq<char> {
    "(10 << "@ + decimal(shift) + ")"@
}

/// The state of the unformatted print's packer: pieces of the current word,
/// the words so far (the last one first), the pieces of the word being
/// closed, and the count of pushed words.
pub struct PackState {
    pub buf: Seq<Seq<char>>,
    pub words: Seq<Seq<char>>,
    pub pre: Seq<Seq<char>>,
    pub count: int,
}

/// One character (at index `i` of a text of byte length `n`) through the
/// packer: seven characters make a word; the last word gets a newline.
pub open spec fn pack_step(st: PackState, i: int, ch: char, n: int) -> PackState {
    let buf = st.buf.push(char_piece(ch, i * 8));
    if i % 7 == 0 || i == n - 2 {
        let count = st.count + 1;
        let pre = st.pre + reversed(buf);
        if i == n - 2 {
            if i % 7 != 0 {
                let pre2 = seq![newline_piece(i * 8 + 8)] + pre;
                PackState {
                    buf: Seq::empty(),
                    words: seq![join(pre2, " + "@)] + st.words,
                    pre: pre2,
                    count,
                }
            } else {
                PackState {
                    buf: Seq::empty(),
                    words: seq![newline_piece(i * 8 + 8), join(pre, " + "@)] + st.words,
                    pre,
                    count: count + 1,
                }
            }
        } else {
            PackState {
                buf: Seq::empty(),
                words: seq![join(pre, " + "@)] + st.words,
                pre: Seq::empty(),
                count,
            }
        }
    } else {
        PackState { buf, ..st }
    }
}

/// The packer over the characters at indices `1..=m`.
pub open spec fn pack_run(t: Seq<char>, m: int, n: int) -> PackState
    decreases m,
{
    if m < 1 {
        PackState { buf: Seq::empty(), words: Seq::empty(), pre: Seq::empty(), count: 1 }
    } else {
        pack_step(pack_run(t, m - 1, n), m, t[m], n)
    }
}

/// A `mov rax` and a `push rax` for each value, in order.
pub open spec fn push_values(v: Seq<Seq<char>>) -> Seq<Seq<char>>
    decreases v.len(),
{
    if v.len() == 0 {
        Seq::empty()
    } else {
        push_values(v.drop_last()) + seq![mov_line("rax"@, v.last()), push_line("rax"@)]
    }
}

/// The lines of an unformatted print of a quoted text: the characters between
/// the quotes packed into words pushed on the stack, a `write` system call to
/// standard output, and the stack restored.
pub open spec fn spec_gen_print(prt: Seq<char>, out: Seq<Seq<char>>) -> Result<
    Seq<Seq<char>>,
    GenErrorKindView,
> {
    let n = byte_len(prt);
    if n < 1 {
        Err(GenErrorKindView::Aborted)
    } else if n >= 3 && (n - 2 >= prt.len() || (n - 2) * 8 + 8 > usize::MAX) {
        Err(GenErrorKindView::Aborted)
    } else {
        let st = pack_run(prt, n - 2, n);
        if st.count * 8 > i32::MAX {
            Err(GenErrorKindView::Aborted)
        } else {
            Ok(
                out + push_values(seq!["0"@] + st.words) + seq![
                    "    mov rax, 1"@,
                    "    mov rdi, 1"@,
                    "    mov rsi, rsp"@,
                    "    mov rdx, "@ + decimal(n),
                    "    syscall"@,
                    "    add rsp, "@ + decimal(st.count * 8),
                ],
            )
        }
    }
}

/// The length of a string in UTF-8 bytes, as `str::len` returns it.
pub open spec fn byte_len(s: Seq<char>) -> int {
    crate::parser::byte_len(s)
}

/// The text `('c' << shift)` (exec form of `char_piece`).
fn char_piece_exec(ch: char, shift: usize) -> (r: String)
    ensures
        r@ == char_piece(ch, shift as int),
{
    let mut r = lit("('");
    let c = crate::text::char_string(ch);
    r.append(c.as_str());
    r.append("' << ");
    let d = decimal_usize(shift);
    r.append(d.as_str());
    r.append(")");
    r
}

/// The text `(10 << shift)` (exec form of `newline_piece`).
fn newline_piece_exec(shift: usize) -> (r: String)
    ensures
        r@ == newline_piece(shift as int),
{
    let mut r = lit("(10 << ");
    let d = decimal_usize(shift);
    r.append(d.as_str());
    r.append(")");
    r
}

/// The lines of an unformatted print (see `spec_gen_print`).
pub fn gen_print(prt: &String, out: Vec<String>) -> (r: Result<Vec<String>, GenErrorKind>)
    ensures
        gen_result(r) == spec_gen_print(prt@, views(out@)),
{
    let mut code = out;
    let chars = chars_of(prt.as_str());
    let n = prt.as_str().len();
    if n < 1 {
        return Err(GenErrorKind::Aborted);
    }
    if n >= 3 && (n - 2 >= chars.len() || n - 2 > (usize::MAX - 8) / 8) {
        return Err(GenErrorKind::Aborted);
    }
    let ghost t = prt@;
    let mut buf: Vec<String> = Vec::new();
    let mut stmt: Vec<String> = Vec::new();
    let mut pre: Vec<String> = Vec::new();
    let mut c: usize = 1;
    let mut i: usize = 1;
    assert(views(buf@) =~= Seq::<Seq<char>>::empty());
    assert(views(stmt@) =~= Seq::<Seq<char>>::empty());
    assert(views(pre@) =~= Seq::<Seq<char>>::empty());
    while i + 1 < n
        invariant
            chars@ == t,
            t == prt@,
            n as int == byte_len(t),
            1 <= i,
            n >= 2 ==> i <= n - 1,
            n < 2 ==> i == 1,
            n >= 3 ==> n - 2 < chars.len() && (n - 2) * 8 + 8 <= usize::MAX,
            c <= 2 * i,
            ({
                let st = pack_run(t, i - 1, n as int);
                views(buf@) == st.buf && views(stmt@) == st.words && views(pre@) == st.pre
                    && c as int == st.count
            }),
        decreases n - i,
    {
        let byte = i * 8;
        let ch = chars[i];
        let ghost prev = pack_run(t, i - 1, n as int);
        let piece = char_piece_exec(ch, byte);
        let ghost b0 = buf@;
        buf.push(piece);
        proof {
            lemma_views_push(b0, piece);
        }
        if i % 7 == 0 || i == n - 2 {
            c += 1;
            let ghost p0 = views(pre@);
            let mut j: usize = 0;
            while j < buf.len()
                invariant
                    j <= buf@.len(),
                    views(pre@) == p0 + reversed(views(buf@)).subrange(0, j as int),
                decreases buf.len() - j,
            {
                let ghost pb = pre@;
                let x = buf[buf.len() - 1 - j].clone();
                pre.push(x);
                proof {
                    lemma_views_push(pb, x);
                    assert(reversed(views(buf@)).subrange(0, j + 1) =~= reversed(
                        views(buf@),
                    ).subrange(0, j as int).push(x@));
                }
                j += 1;
            }
            assert(reversed(views(buf@)).subrange(0, buf@.len() as int) =~= reversed(views(buf@)));
            buf = Vec::new();
            if i == n - 2 {
                if i % 7 != 0 {
                    let nl = newline_piece_exec(byte + 8);
                    let ghost pp = pre@;
                    pre.insert(0, nl);
                    assert(views(pre@) =~= seq![nl@] + views(pp));
                    let w = join_strings(pre.as_slice(), " + ");
                    let ghost sp = stmt@;
                    stmt.insert(0, w);
                    assert(views(stmt@) =~= seq![w@] + views(sp));
                } else {
                    let w = join_strings(pre.as_slice(), " + ");
                    let ghost sp = stmt@;
                    stmt.insert(0, w);
                    let nl = newline_piece_exec(byte + 8);
                    stmt.insert(0, nl);
                    assert(views(stmt@) =~= seq![nl@, w@] + views(sp));
                    c += 1;
                }
            } else {
                let w = join_strings(pre.as_slice(), " + ");
                let ghost sp = stmt@;
                stmt.insert(0, w);
                assert(views(stmt@) =~= seq![w@] + views(sp));
                pre = Vec::new();
            }
        }
        proof {
            let nx = pack_step(prev, i as int, ch, n as int);
            assert(views(buf@) =~= nx.buf);
            assert(views(pre@) =~= nx.pre);
            assert(views(stmt@) =~= nx.words);
        }
        i += 1;
    }
    proof {
        if n < 3 {
            assert(i == 1);
        }
    }
    let ghost st = pack_run(t, n - 2, n as int);
    if c > (i32::MAX as usize) / 8 {
        return Err(GenErrorKind::Aborted);
    }
    let zero = lit("0");
    let ghost s0 = stmt@;
    stmt.insert(0, zero);
    assert(views(stmt@) =~= seq!["0"@] + views(s0));
    let ghost c0 = views(code@);
    let mut k: usize = 0;
    while k < stmt.len()
        invariant
            k <= stmt@.len(),
            views(code@) == c0 + push_values(views(stmt@).take(k as int)),
        decreases stmt.len() - k,
    {
        let ghost cb = views(code@);
        let l1 = mov_line_exec("rax", stmt[k].as_str());
        push_str(&mut code, l1);
        let mut l2 = lit("    push ");
        l2.append("rax");
        push_str(&mut code, l2);
        proof {
            let tk = views(stmt@).take(k + 1);
            assert(tk.drop_last() =~= views(stmt@).take(k as int));
            assert(tk.last() == stmt@[k as int]@);
            assert(views(code@) =~= c0 + (push_values(views(stmt@).take(k as int)) + seq![
                mov_line("rax"@, stmt@[k as int]@),
                push_line("rax"@),
            ]));
        }
        k += 1;
    }
    assert(views(stmt@).take(stmt@.len() as int) =~= views(stmt@));
    let ghost c1 = views(code@);
    push_str(&mut code, lit("    mov rax, 1"));
    push_str(&mut code, lit("    mov rdi, 1"));
    push_str(&mut code, lit("    mov rsi, rsp"));
    let mut l = lit("    mov rdx, ");
    let d = decimal_usize(n);
    l.append(d.as_str());
    push_str(&mut code, l);
    push_str(&mut code, lit("    syscall"));
    let mut l2 = lit("    add rsp, ");
    let d2 = decimal_usize(c * 8);
    l2.append(d2.as_str());
    push_str(&mut code, l2);
    assert(views(code@) =~= c1 + seq![
        "    mov rax, 1"@,
        "    mov rdi, 1"@,
        "    mov rsi, rsp"@,
        "    mov rdx, "@ + decimal(n as int),
        "    syscall"@,
        "    add rsp, "@ + decimal((c * 8) as int),
    ]);
    Ok(code)
}

/// The lines after a character code is in `rax`: it is turned into a digit,
/// pushed, and written (two bytes) to the descriptor `fd`.
pub open spec fn char_tail(fd: Seq<char>) -> Seq<Seq<char>> {
    seq![
        "    add rax, 48"@,
        "    mov rbx, ('' << 8)"@,
        "    or rax, rbx"@,
        "    push rax"@,
        "    mov rax, 1"@,
        "    mov rdi, "@ + fd,
        "    mov rsi, rsp"@,
        "    mov rdx, 2"@,
        "    syscall"@,
        "    add rsp, 16"@,
    ]
}

/// The pieces of a quoted text of byte length `n`: the character at index
/// `k + 1` placed at bit `8 * k`, for the `n - 2` characters between the quotes.
pub open spec fn text_pieces(term: Seq<char>, n: int) -> Seq<Seq<char>> {
    Seq::new((n - 2) as nat, |k: int| char_piece(term[k + 1], k * 8))
}

/// The lines of a quoted text in a formatted print: its characters packed into
/// one word (the last one first), pushed, and written to `fd`. A text of fewer
/// than three bytes writes nothing.
pub open spec fn text_term(term: Seq<char>, fd: Seq<char>, out: Seq<Seq<char>>) -> Result<
    Seq<Seq<char>>,
    GenErrorKindView,
> {
    let n = byte_len(term);
    if n < 3 {
        Ok(out)
    } else if n - 2 >= term.len() || (n - 3) * 8 > usize::MAX {
        Err(GenErrorKindView::Aborted)
    } else {
        Ok(
            spec_move_to_stack("rax"@, join(reversed(text_pieces(term, n)), "+"@), out) + seq![
                "    mov rax, 1"@,
                "    mov rdi, "@ + fd,
                "    mov rsi, rsp"@,
                "    mov rdx, "@ + decimal(n - 1),
                "    syscall"@,
                "    add rsp, 16"@,
            ],
        )
    }
}

/// The lines of one term of a formatted print to `fd`, after a zero word is
/// pushed: a quoted text; a binary expression (its value popped into `rax`);
/// a call (`fcall name args`, its value in `rax`); a variable of the current
/// function; or an integer constant. A print to standard error (`to_stdout`
/// false) stops at a constant, whose table it looks up under a name that never
/// holds one.
pub open spec fn fmt_term(
    term: Seq<char>,
    t: GenTablesView,
    curr: Seq<char>,
    to_stdout: bool,
    out: Seq<Seq<char>>,
) -> Result<Seq<Seq<char>>, GenErrorKindView> {
    let fd = if to_stdout {
        "1"@
    } else {
        "2"@
    };
    let o0 = spec_move_to_stack("rax"@, "0"@, out);
    if term.len() > 0 && term[0] == '"' {
        text_term(term, fd, o0)
    } else if spec_gen_is_bin_expr(term) {
        match bin_steps(seq![term], 0, t, curr, true, o0) {
            Err(x) => Err(x),
            Ok(o) => Ok(o.push(pop_line("rax"@)) + char_tail(fd)),
        }
    } else if spec_gen_is_fnc_call(term) {
        let w = words(term);
        if w.len() < 2 {
            Err(GenErrorKindView::Aborted)
        } else {
            match spec_gen_fnc_call(w[1], w.subrange(2, w.len() as int), t, curr, true, o0) {
                Err(x) => Err(x),
                Ok(o) => Ok(o + char_tail(fd)),
            }
        }
    } else {
        match gen_scope_of(t, curr) {
            None => Err(GenErrorKindView::Aborted),
            Some(sc) => if has_slot(sc, term) {
                match add_off(base_offset(sc, curr, term), 8) {
                    None => Err(GenErrorKindView::Aborted),
                    Some(v) => Ok(o0.push(mov_line("rax"@, rsp_at(v))) + char_tail(fd)),
                }
            } else if !to_stdout {
                Err(GenErrorKindView::Aborted)
            } else {
                match t.const_int {
                    None => Err(GenErrorKindView::Aborted),
                    Some(c) => if c.contains(term) {
                        Ok(o0.push(mov_line("rax"@, mem_at(term))) + char_tail(fd))
                    } else {
                        Err(GenErrorKindView::UndefinedVariable { name: term })
                    },
                }
            },
        }
    }
}

/// The lines of the terms `prf[i..]` of a formatted print.
pub open spec fn fmt_terms(
    prf: Seq<Seq<char>>,
    i: int,
    t: GenTablesView,
    curr: Seq<char>,
    to_stdout: bool,
    out: Seq<Seq<char>>,
) -> Result<Seq<Seq<char>>, GenErrorKindView>
    decreases prf.len() - i,
{
    if i < 0 || i >= prf.len() {
        Ok(out)
    } else {
        match fmt_term(prf[i], t, curr, to_stdout, out) {
            Err(x) => Err(x),
            Ok(o) => fmt_terms(prf, i + 1, t, curr, to_stdout, o),
        }
    }
}

/// The closing lines of a formatted print: a newline written to `fd`.
pub open spec fn fmt_tail(fd: Seq<char>, out: Seq<Seq<char>>) -> Seq<Seq<char>> {
    spec_move_to_stack(
        "rax"@,
        "(10 << 8) + ('' << 0)"@,
        spec_move_to_stack("rax"@, "0"@, out),
    ) + seq![
        "    mov rax, 1"@,
        "    mov rdi, "@ + fd,
        "    mov rsi, rsp"@,
        "    mov rdx, 2"@,
        "    syscall"@,
        "    add rsp, 16"@,
    ]
}

/// The lines of a formatted print: each term, then a newline.
pub open spec fn spec_gen_print_fmt(
    prf: Seq<Seq<char>>,
    t: GenTablesView,
    curr: Seq<char>,
    to_stdout: bool,
    out: Seq<Seq<char>>,
) -> Result<Seq<Seq<char>>, GenErrorKindView> {
    match fmt_terms(prf, 0, t, curr, to_stdout, out) {
        Err(x) => Err(x),
        Ok(o) => Ok(
            fmt_tail(
                if to_stdout {
                    "1"@
                } else {
                    "2"@
                },
                o,
            ),
        ),
    }
}

/// Appends `line` made of a head and a tail.
fn push_joined(out: &mut Vec<String>, head: &str, tail: &str)
    ensures
        views(final(out)@) == views(old(out)@).push(head@ + tail@),
{
    let mut l = lit(head);
    l.append(tail);
    push_str(out, l);
}

/// Appends the lines of `char_tail`.
fn push_char_tail(out: &mut Vec<String>, fd: &str)
    ensures
        views(final(out)@) == views(old(out)@) + char_tail(fd@),
{
    let ghost o0 = views(out@);
    push_str(out, lit("    add rax, 48"));
    push_str(out, lit("    mov rbx, ('' << 8)"));
    push_str(out, lit("    or rax, rbx"));
    push_str(out, lit("    push rax"));
    push_str(out, lit("    mov rax, 1"));
    push_joined(out, "    mov rdi, ", fd);
    push_str(out, lit("    mov rsi, rsp"));
    push_str(out, lit("    mov rdx, 2"));
    push_str(out, lit("    syscall"));
    push_str(out, lit("    add rsp, 16"));
    assert(views(out@) =~= o0 + char_tail(fd@));
}

/// The lines of a quoted text (exec form of `text_term`).
fn text_term_exec(term: &String, fd: &str, out: Vec<String>) -> (r: Result<Vec<String>, GenErrorKind>)
    ensures
        gen_result(r) == text_term(term@, fd@, views(out@)),
{
    let mut code = out;
    let chars = chars_of(term.as_str());
    let n = term.as_str().len();
    if n < 3 {
        return Ok(code);
    }
    if n - 2 >= chars.len() || n - 3 > usize::MAX / 8 {
        return Err(GenErrorKind::Aborted);
    }
    let ghost pieces = text_pieces(term@, n as int);
    let mut stmt: Vec<String> = Vec::new();
    let mut i: usize = 1;
    assert(views(stmt@) =~= reversed(pieces.take(0)));
    while i <= n - 2
        invariant
            chars@ == term@,
            n as int == byte_len(term@),
            n >= 3,
            n - 2 < chars@.len(),
            (n - 3) * 8 <= usize::MAX,
            pieces == text_pieces(term@, n as int),
            1 <= i <= n - 1,
            views(stmt@) == reversed(pieces.take(i - 1)),
        decreases n - 1 - i,
    {
        let piece = char_piece_exec(chars[i], (i - 1) * 8);
        let ghost s0 = views(stmt@);
        stmt.insert(0, piece);
        assert(views(stmt@) =~= seq![piece@] + s0);
        assert(reversed(pieces.take(i as int)) =~= seq![pieces[i - 1]] + reversed(pieces.take(i - 1)));
        i += 1;
    }
    assert(pieces.take(n - 2) =~= pieces);
    let w = join_strings(stmt.as_slice(), "+");
    let rax = lit("rax");
    code = move_to_stack(&rax, &w, code);
    let ghost c1 = views(code@);
    push_str(&mut code, lit("    mov rax, 1"));
    push_joined(&mut code, "    mov rdi, ", fd);
    push_str(&mut code, lit("    mov rsi, rsp"));
    let l = line_with_number("    mov rdx, ", (n - 1) as i64);
    push_str(&mut code, l);
    push_str(&mut code, lit("    syscall"));
    push_str(&mut code, lit("    add rsp, 16"));
    assert(views(code@) =~= c1 + seq![
        "    mov rax, 1"@,
        "    mov rdi, "@ + fd@,
        "    mov rsi, rsp"@,
        "    mov rdx, "@ + decimal(n - 1),
        "    syscall"@,
        "    add rsp, 16"@,
    ]);
    Ok(code)
}

/// The lines of one term of a formatted print (exec form of `fmt_term`).
fn fmt_term_exec(
    term: &String,
    vars: &GenTables,
    curr_func: &String,
    to_stdout: bool,
    out: Vec<String>,
) -> (r: Result<Vec<String>, GenErrorKind>)
    requires
        tables_wf(vars@),
    ensures
        gen_result(r) == fmt_term(term@, vars@, curr_func@, to_stdout, views(out@)),
{
    let fd = if to_stdout {
        "1"
    } else {
        "2"
    };
    let rax = lit("rax");
    let zero = lit("0");
    let mut code = move_to_stack(&rax, &zero, out);
    let chars = chars_of(term.as_str());
    if chars.len() > 0 && chars[0] == '"' {
        return text_term_exec(term, fd, code);
    }
    if is_bin_expr(term) {
        let one = vec![term.clone()];
        assert(views(one@) =~= seq![term@]);
        code = gen_bin_expr(one.as_slice(), vars, curr_func, true, code)?;
        let mut p = lit("    pop ");
        p.append("rax");
        push_str(&mut code, p);
        push_char_tail(&mut code, fd);
        return Ok(code);
    }
    if is_fnc_call(term) {
        let w = split_words(term.as_str());
        if w.len() < 2 {
            return Err(GenErrorKind::Aborted);
        }
        let rest = vstd::slice::slice_subrange(w.as_slice(), 2, w.len());
        assert(views(rest@) =~= views(w@).subrange(2, w@.len() as int));
        assert(views(w@)[1] == w@[1]@);
        code = gen_fnc_call(&w[1], rest, vars, curr_func, true, code)?;
        push_char_tail(&mut code, fd);
        return Ok(code);
    }
    let k = match vars.scope_index(curr_func.as_str()) {
        None => {
            return Err(GenErrorKind::Aborted);
        },
        Some(k) => k,
    };
    let sc = &vars.scopes[k];
    assert(vars@.scopes[k as int] == sc@);
    if has_slot_exec(sc, term.as_str()) {
        match add_off_exec(base_offset_exec(sc, curr_func.as_str(), term.as_str()), 8) {
            None => Err(GenErrorKind::Aborted),
            Some(v) => {
                let at = rsp_at_exec(v);
                push_str(&mut code, mov_line_exec("rax", at.as_str()));
                push_char_tail(&mut code, fd);
                Ok(code)
            },
        }
    } else if !to_stdout || !vars.const_table {
        Err(GenErrorKind::Aborted)
    } else if crate::parser::list_contains(&vars.const_int, term.as_str()) {
        let m = mem_at_exec(term.as_str());
        push_str(&mut code, mov_line_exec("rax", m.as_str()));
        push_char_tail(&mut code, fd);
        Ok(code)
    } else {
        Err(GenErrorKind::UndefinedVariable { name: term.clone() })
    }
}

/// The lines of a formatted print (exec form of `spec_gen_print_fmt`).
fn gen_print_fmt(
    prf: &[String],
    vars: &GenTables,
    curr_func: &String,
    to_stdout: bool,
    out: Vec<String>,
) -> (r: Result<Vec<String>, GenErrorKind>)
    requires
        tables_wf(vars@),
    ensures
        gen_result(r) == spec_gen_print_fmt(views(prf@), vars@, curr_func@, to_stdout, views(out@)),
{
    let mut code = out;
    let mut i: usize = 0;
    while i < prf.len()
        invariant
            i <= prf@.len(),
            tables_wf(vars@),
            fmt_terms(views(prf@), i as int, vars@, curr_func@, to_stdout, views(code@)) == fmt_terms(
                views(prf@),
                0,
                vars@,
                curr_func@,
                to_stdout,
                views(out@),
            ),
        decreases prf.len() - i,
    {
        assert(views(prf@)[i as int] == prf@[i as int]@);
        code = fmt_term_exec(&prf[i], vars, curr_func, to_stdout, code)?;
        i += 1;
    }
    let fd = if to_stdout {
        "1"
    } else {
        "2"
    };
    let rax = lit("rax");
    let zero = lit("0");
    code = move_to_stack(&rax, &zero, code);
    let nl = lit("(10 << 8) + ('' << 0)");
    code = move_to_stack(&rax, &nl, code);
    let ghost c1 = views(code@);
    push_str(&mut code, lit("    mov rax, 1"));
    push_joined(&mut code, "    mov rdi, ", fd);
    push_str(&mut code, lit("    mov rsi, rsp"));
    push_str(&mut code, lit("    mov rdx, 2"));
    push_str(&mut code, lit("    syscall"));
    push_str(&mut code, lit("    add rsp, 16"));
    assert(views(code@) =~= c1 + seq![
        "    mov rax, 1"@,
        "    mov rdi, "@ + fd@,
        "    mov rsi, rsp"@,
        "    mov rdx, 2"@,
        "    syscall"@,
        "    add rsp, 16"@,
    ]);
    Ok(code)
}

/// The lines of a formatted print to standard output (see `spec_gen_print_fmt`).
pub fn gen_print_f(prf: &[String], vars: &GenTables, curr_func: &String, out: Vec<String>) -> (r:
    Result<Vec<String>, GenErrorKind>)
    requires
        tables_wf(vars@),
    ensures
        gen_result(r) == spec_gen_print_fmt(views(prf@), vars@, curr_func@, true, views(out@)),
{
    gen_print_fmt(prf, vars, curr_func, true, out)
}

/// The lines of a formatted print to standard error (see `spec_gen_print_fmt`).
pub fn gen_print_e(prf: &[String], vars: &GenTables, curr_func: &String, out: Vec<String>) -> (r:
    Result<Vec<String>, GenErrorKind>)
    requires
        tables_wf(vars@),
    ensures
        gen_result(r) == spec_gen_print_fmt(views(prf@), vars@, curr_func@, false, views(out@)),
{
    gen_print_fmt(prf, vars, curr_func, false, out)
}

// ---------------------------------------------------------------------------
// Returns, exits and assignments
// ---------------------------------------------------------------------------

/// Whether `v` is a variable or an argument of a function table.
pub open spec fn is_local(sc: GenScopeView, v: Seq<char>) -> bool {
    sc.vars_names.contains(v) || sc.args_names.contains(v)
}

/// The offset of a local's slot; a local without a slot, or an offset that
/// leaves `i32`, stops the generation.
pub open spec fn local_offset(sc: GenScopeView, curr: Seq<char>, v: Seq<char>) -> Result<i32, GenErrorKindView> {
    if !has_slot(sc, v) {
        Err(GenErrorKindView::Aborted)
    } else {
        match base_offset(sc, curr, v) {
            None => Err(GenErrorKindView::Aborted),
            Some(o) => Ok(o),
        }
    }
}

/// The lines of a call written in a statement entry (`fcall name args...`, cut
/// at spaces): the name is the second piece, the arguments the pieces from
/// index `skip` on.
pub open spec fn stmt_call(
    v: Seq<char>,
    skip: int,
    t: GenTablesView,
    curr: Seq<char>,
    out: Seq<Seq<char>>,
) -> Result<Seq<Seq<char>>, GenErrorKindView> {
    let parts = split_on(v, " "@);
    if parts.len() < 2 {
        Err(GenErrorKindView::Aborted)
    } else {
        spec_gen_fnc_call(parts[1], parts.subrange(skip, parts.len() as int), t, curr, false, out)
    }
}

/// The offset of a local's slot (exec form of `local_offset`).
fn local_offset_exec(sc: &GenScope, curr: &str, v: &str) -> (r: Result<i32, GenErrorKind>)
    requires
        sc@.slots.len() == sc@.slot_names.len(),
    ensures
        match r {
            Ok(o) => local_offset(sc@, curr@, v@) == Ok::<i32, GenErrorKindView>(o),
            Err(e) => local_offset(sc@, curr@, v@) == Err::<i32, GenErrorKindView>(e@),
        },
{
    if !has_slot_exec(sc, v) {
        return Err(GenErrorKind::Aborted);
    }
    match base_offset_exec(sc, curr, v) {
        None => Err(GenErrorKind::Aborted),
        Some(o) => Ok(o),
    }
}

/// Whether `v` is a local of the function table (exec form of `is_local`).
fn is_local_exec(sc: &GenScope, v: &str) -> (b: bool)
    ensures
        b == is_local(sc@, v@),
{
    crate::parser::list_contains(&sc.vars_names, v) || crate::parser::list_contains(&sc.args_names, v)
}

/// The lines of a call in a statement entry (exec form of `stmt_call`).
fn stmt_call_exec(
    v: &String,
    skip: usize,
    vars: &GenTables,
    curr: &String,
    out: Vec<String>,
) -> (r: Result<Vec<String>, GenErrorKind>)
    requires
        tables_wf(vars@),
        1 <= skip <= 2,
    ensures
        gen_result(r) == stmt_call(v@, skip as int, vars@, curr@, views(out@)),
{
    proof {
        reveal_strlit(" ");
    }
    let parts = split(v.as_str(), " ");
    if parts.len() < 2 {
        return Err(GenErrorKind::Aborted);
    }
    let args = vstd::slice::slice_subrange(parts.as_slice(), skip, parts.len());
    assert(views(args@) =~= views(parts@).subrange(skip as int, parts@.len() as int));
    assert(views(parts@)[1] == parts@[1]@);
    gen_fnc_call(&parts[1], args, vars, curr, false, out)
}

/// The lines that put a returned value in `rax` (see `spec_gen_ret`).
pub open spec fn ret_value(
    rv: Seq<Seq<char>>,
    t: GenTablesView,
    curr: Seq<char>,
    out: Seq<Seq<char>>,
) -> Result<Seq<Seq<char>>, GenErrorKindView> {
    if rv.len() != 1 || spec_has_bin_expr(rv) || spec_gen_is_fnc_call(rv[0]) {
        if spec_has_bin_expr(rv) {
            match bin_steps(rv, 0, t, curr, false, out) {
                Err(x) => Err(x),
                Ok(o) => Ok(o.push(pop_line("rax"@))),
            }
        } else if spec_gen_is_fnc_call(rv[0]) {
            stmt_call(rv[0], 2, t, curr, out)
        } else {
            Ok(out)
        }
    } else if spec_is_int_lit(rv[0]) {
        Ok(out.push(mov_line("rax"@, rv[0])))
    } else {
        match gen_scope_of(t, curr) {
            None => Err(GenErrorKindView::Aborted),
            Some(sc) => if is_local(sc, rv[0]) {
                match local_offset(sc, curr, rv[0]) {
                    Err(x) => Err(x),
                    Ok(o) => Ok(out.push(mov_line("rax"@, rsp_at(o)))),
                }
            } else {
                Ok(out.push(mov_line("rax"@, mem_at(rv[0]))))
            },
        }
    }
}

/// The lines of a `ret`: the value into `rax` (a binary expression popped, a
/// call, a literal, a local from its slot, or a constant from memory), then the
/// function's variables dropped from the stack and `ret`.
pub open spec fn spec_gen_ret(
    rv: Seq<Seq<char>>,
    t: GenTablesView,
    curr: Seq<char>,
    out: Seq<Seq<char>>,
) -> Result<Seq<Seq<char>>, GenErrorKindView> {
    match ret_value(rv, t, curr, out) {
        Err(x) => Err(x),
        Ok(o) => match gen_scope_of(t, curr) {
            None => Err(GenErrorKindView::Aborted),
            Some(sc) => if sc.vars_names.len() * 8 > usize::MAX {
                Err(GenErrorKindView::Aborted)
            } else {
                Ok(o.push("    add rsp, "@ + decimal((sc.vars_names.len() * 8) as int)).push("    ret"@))
            },
        },
    }
}

/// The lines of a `ret` (see `spec_gen_ret`).
pub fn gen_ret(ret_val: &[String], vars: &GenTables, curr_func: &String, out: Vec<String>) -> (r:
    Result<Vec<String>, GenErrorKind>)
    requires
        tables_wf(vars@),
    ensures
        gen_result(r) == spec_gen_ret(views(ret_val@), vars@, curr_func@, views(out@)),
{
    let mut code = out;
    let ghost rv = views(ret_val@);
    let all_bin = has_bin_expr(ret_val);
    if ret_val.len() != 1 || all_bin || is_fnc_call(&ret_val[0]) {
        if all_bin {
            code = gen_bin_expr(ret_val, vars, curr_func, false, code)?;
            let mut p = lit("    pop ");
            p.append("rax");
            push_str(&mut code, p);
        } else if is_fnc_call(&ret_val[0]) {
            assert(rv[0] == ret_val@[0]@);
            code = stmt_call_exec(&ret_val[0], 2, vars, curr_func, code)?;
        }
    } else {
        let v = &ret_val[0];
        assert(rv[0] == v@);
        if is_int_lit(v) {
            push_str(&mut code, mov_line_exec("rax", v.as_str()));
        } else {
            let k = match vars.scope_index(curr_func.as_str()) {
                None => {
                    return Err(GenErrorKind::Aborted);
                },
                Some(k) => k,
            };
            let sc = &vars.scopes[k];
            assert(vars@.scopes[k as int] == sc@);
            if is_local_exec(sc, v.as_str()) {
                let o = local_offset_exec(sc, curr_func.as_str(), v.as_str())?;
                let at = rsp_at_exec(o);
                push_str(&mut code, mov_line_exec("rax", at.as_str()));
            } else {
                let m = mem_at_exec(v.as_str());
                push_str(&mut code, mov_line_exec("rax", m.as_str()));
            }
        }
    }
    let k = match vars.scope_index(curr_func.as_str()) {
        None => {
            return Err(GenErrorKind::Aborted);
        },
        Some(k) => k,
    };
    let nv = vars.scopes[k].vars_names.len();
    assert(vars@.scopes[k as int] == vars.scopes@[k as int]@);
    if nv > usize::MAX / 8 {
        return Err(GenErrorKind::Aborted);
    }
    let mut l = lit("    add rsp, ");
    let d = decimal_usize(nv * 8);
    l.append(d.as_str());
    push_str(&mut code, l);
    push_str(&mut code, lit("    ret"));
    Ok(code)
}

/// The lines that push an exit value (see `spec_gen_out`).
pub open spec fn out_value(
    ov: Seq<Seq<char>>,
    t: GenTablesView,
    curr: Seq<char>,
    out: Seq<Seq<char>>,
) -> Result<Seq<Seq<char>>, GenErrorKindView> {
    if ov.len() > 1 {
        if spec_has_bin_expr(ov) {
            bin_steps(ov, 0, t, curr, false, out)
        } else {
            Err(GenErrorKindView::InvalidExitValue)
        }
    } else if ov.len() == 0 {
        Err(GenErrorKindView::Aborted)
    } else if spec_gen_is_bin_expr(ov[0]) {
        bin_steps(ov, 0, t, curr, false, out)
    } else if spec_gen_is_fnc_call(ov[0]) {
        match stmt_call(ov[0], 1, t, curr, out) {
            Err(x) => Err(x),
            Ok(o) => Ok(o.push(push_line("rax"@))),
        }
    } else if spec_is_int_lit(ov[0]) {
        Ok(spec_move_to_stack("rax"@, ov[0], out))
    } else {
        match gen_scope_of(t, curr) {
            None => Err(GenErrorKindView::Aborted),
            Some(sc) => if is_local(sc, ov[0]) {
                match local_offset(sc, curr, ov[0]) {
                    Err(x) => Err(x),
                    Ok(o) => Ok(spec_move_to_stack("rax"@, rsp_at(o), out)),
                }
            } else {
                Ok(out.push(mov_line("rax"@, mem_at(ov[0]))))
            },
        }
    }
}

/// The lines of an `out`, the program's exit: the value pushed (a binary
/// expression, a call, a literal, a local from its slot, or a constant from
/// memory), popped into `rdi`, and the `exit` system call. Several entries that
/// are not all binary steps are refused.
pub open spec fn spec_gen_out(
    ov: Seq<Seq<char>>,
    t: GenTablesView,
    curr: Seq<char>,
    out: Seq<Seq<char>>,
) -> Result<Seq<Seq<char>>, GenErrorKindView> {
    match out_value(ov, t, curr, out) {
        Err(x) => Err(x),
        Ok(o) => Ok(o + seq!["    pop rdi"@, "    mov rax, 60"@, "    syscall"@]),
    }
}

/// The lines of an `out` (see `spec_gen_out`).
pub fn gen_out(out_val: &[String], vars: &GenTables, curr_func: &String, out: Vec<String>) -> (r:
    Result<Vec<String>, GenErrorKind>)
    requires
        tables_wf(vars@),
    ensures
        gen_result(r) == spec_gen_out(views(out_val@), vars@, curr_func@, views(out@)),
{
    let mut code = out;
    let ghost ov = views(out_val@);
    let rax = lit("rax");
    if out_val.len() > 1 {
        if has_bin_expr(out_val) {
            code = gen_bin_expr(out_val, vars, curr_func, false, code)?;
        } else {
            return Err(GenErrorKind::InvalidExitValue);
        }
    } else if out_val.len() == 0 {
        return Err(GenErrorKind::Aborted);
    } else {
        let v = &out_val[0];
        assert(ov[0] == v@);
        if is_bin_expr(v) {
            code = gen_bin_expr(out_val, vars, curr_func, false, code)?;
        } else if is_fnc_call(v) {
            code = stmt_call_exec(v, 1, vars, curr_func, code)?;
            let mut p = lit("    push ");
            p.append("rax");
            push_str(&mut code, p);
        } else if is_int_lit(v) {
            code = move_to_stack(&rax, v, code);
        } else {
            let k = match vars.scope_index(curr_func.as_str()) {
                None => {
                    return Err(GenErrorKind::Aborted);
                },
                Some(k) => k,
            };
            let sc = &vars.scopes[k];
            assert(vars@.scopes[k as int] == sc@);
            if is_local_exec(sc, v.as_str()) {
                let o = local_offset_exec(sc, curr_func.as_str(), v.as_str())?;
                let at = rsp_at_exec(o);
                code = move_to_stack(&rax, &at, code);
            } else {
                let m = mem_at_exec(v.as_str());
                push_str(&mut code, mov_line_exec("rax", m.as_str()));
            }
        }
    }
    let ghost c1 = views(code@);
    push_str(&mut code, lit("    pop rdi"));
    push_str(&mut code, lit("    mov rax, 60"));
    push_str(&mut code, lit("    syscall"));
    assert(views(code@) =~= c1 + seq!["    pop rdi"@, "    mov rax, 60"@, "    syscall"@]);
    Ok(code)
}

/// The lines of a value assigned to a variable, left pushed on the stack: a
/// binary expression, a call (`rax` pushed), a local from its slot, or anything
/// else moved as written.
pub open spec fn spec_gen_var_var(
    vv: Seq<Seq<char>>,
    t: GenTablesView,
    curr: Seq<char>,
    in_print: bool,
    out: Seq<Seq<char>>,
) -> Result<Seq<Seq<char>>, GenErrorKindView> {
    if vv.len() == 0 {
        Err(GenErrorKindView::Aborted)
    } else if vv.len() > 1 || spec_gen_is_bin_expr(vv[0]) {
        bin_steps(vv, 0, t, curr, in_print, out)
    } else if spec_gen_is_fnc_call(vv[0]) {
        match stmt_call(vv[0], 2, t, curr, out) {
            Err(x) => Err(x),
            Ok(o) => Ok(o.push(push_line("rax"@))),
        }
    } else {
        match gen_scope_of(t, curr) {
            None => Err(GenErrorKindView::Aborted),
            Some(sc) => if is_local(sc, vv[0]) {
                match local_offset(sc, curr, vv[0]) {
                    Err(x) => Err(x),
                    Ok(o) => Ok(spec_move_to_stack("rax"@, rsp_at(o), out)),
                }
            } else {
                Ok(spec_move_to_stack("rax"@, vv[0], out))
            },
        }
    }
}

/// The lines of an assigned value (see `spec_gen_var_var`).
pub fn gen_var_var(
    var_val: &[String],
    vars: &GenTables,
    curr_func: &String,
    in_print: bool,
    out: Vec<String>,
) -> (r: Result<Vec<String>, GenErrorKind>)
    requires
        tables_wf(vars@),
    ensures
        gen_result(r) == spec_gen_var_var(views(var_val@), vars@, curr_func@, in_print, views(out@)),
{
    let mut code = out;
    let ghost vv = views(var_val@);
    if var_val.len() == 0 {
        return Err(GenErrorKind::Aborted);
    }
    let v = &var_val[0];
    assert(vv[0] == v@);
    let rax = lit("rax");
    if var_val.len() > 1 || is_bin_expr(v) {
        gen_bin_expr(var_val, vars, curr_func, in_print, code)
    } else if is_fnc_call(v) {
        code = stmt_call_exec(v, 2, vars, curr_func, code)?;
        let mut p = lit("    push ");
        p.append("rax");
        push_str(&mut code, p);
        Ok(code)
    } else {
        let k = match vars.scope_index(curr_func.as_str()) {
            None => {
                return Err(GenErrorKind::Aborted);
            },
            Some(k) => k,
        };
        let sc = &vars.scopes[k];
        assert(vars@.scopes[k as int] == sc@);
        if is_local_exec(sc, v.as_str()) {
            let o = local_offset_exec(sc, curr_func.as_str(), v.as_str())?;
            let at = rsp_at_exec(o);
            Ok(move_to_stack(&rax, &at, code))
        } else {
            Ok(move_to_stack(&rax, v, code))
        }
    }
}

// ---------------------------------------------------------------------------
// Constants
// ---------------------------------------------------------------------------

/// A constant expression is refused: the check on its operands rejects every
/// operand, so any step stops the generation and no step adds a line.
pub open spec fn spec_gen_const_bin_expr(e: Seq<Seq<char>>, out: Seq<Seq<char>>) -> Result<
    Seq<Seq<char>>,
    GenErrorKindView,
> {
    if e.len() == 0 {
        Ok(out)
    } else {
        Err(GenErrorKindView::ConstantExpression)
    }
}

/// The lines of a constant expression (see `spec_gen_const_bin_expr`).
pub fn gen_const_bin_expr(expr: &[String], out: Vec<String>) -> (r: Result<Vec<String>, GenErrorKind>)
    ensures
        gen_result(r) == spec_gen_const_bin_expr(views(expr@), views(out@)),
{
    let mut i: usize = 0;
    while i < expr.len()
        invariant
            i == 0,
        decreases expr.len() - i,
    {
        proof {
            reveal_strlit(" ");
        }
        let parts = split(expr[i].as_str(), " ");
        assert(split_on(expr@[i as int]@, " "@).len() >= 1);
        assert(views(parts@).len() == parts@.len());
        let mut j: usize = 0;
        while j < parts.len()
            invariant
                j == 0,
                parts@.len() >= 1,
                i < expr@.len(),
            decreases parts.len() - j,
        {
            proof {
                reveal_strlit("PLUS");
                reveal_strlit("TIMES");
                assert("PLUS"@[0] != "TIMES"@[0]);
            }
            let op = parts[j].as_str();
            if !is_int_lit(&parts[j]) || !same(op, "PLUS") || !same(op, "TIMES") || !same(op, "DIV")
                || !same(op, "MIN") {
                return Err(GenErrorKind::ConstantExpression);
            }
            j += 1;
        }
        i += 1;
    }
    Ok(out)
}

/// The data line of a constant: `name dq value` for an integer, `name db
/// value, 0` for a string (the value's entries glued together); an integer
/// whose entries are all binary steps goes through `spec_gen_const_bin_expr`.
pub open spec fn spec_gen_constant(
    name: Seq<char>,
    ty: Seq<char>,
    value: Seq<Seq<char>>,
    out: Seq<Seq<char>>,
) -> Result<Seq<Seq<char>>, GenErrorKindView> {
    if ty == "int"@ {
        if spec_has_bin_expr(value) {
            spec_gen_const_bin_expr(value, out)
        } else {
            Ok(out.push(name + " dq "@ + concat(value)))
        }
    } else if ty == "str"@ {
        Ok(out.push(name + " db "@ + concat(value) + ", 0"@))
    } else {
        Err(GenErrorKindView::UnknownConstantType)
    }
}

/// The data line of a constant (see `spec_gen_constant`).
pub fn gen_constant(name: &String, ty: &String, value: &[String], out: Vec<String>) -> (r: Result<
    Vec<String>,
    GenErrorKind,
>)
    ensures
        gen_result(r) == spec_gen_constant(name@, ty@, views(value@), views(out@)),
{
    let mut code = out;
    if same(ty.as_str(), "int") {
        if has_bin_expr(value) {
            return gen_const_bin_expr(value, code);
        }
        let mut l = name.clone();
        l.append(" dq ");
        let c = concat_strings(value);
        l.append(c.as_str());
        push_str(&mut code, l);
        Ok(code)
    } else if same(ty.as_str(), "str") {
        let mut l = name.clone();
        l.append(" db ");
        let c = concat_strings(value);
        l.append(c.as_str());
        l.append(", 0");
        push_str(&mut code, l);
        Ok(code)
    } else {
        Err(GenErrorKind::UnknownConstantType)
    }
}

// ---------------------------------------------------------------------------
// Statements
// ---------------------------------------------------------------------------

/// The generator's state, by the characters of its strings.
pub struct GenStateView {
    pub tables: GenTablesView,
    pub curr: Seq<char>,
    pub height: i32,
    pub in_func: bool,
    pub data: Seq<Seq<char>>,
    pub funcs: Seq<Seq<char>>,
    pub start: Seq<Seq<char>>,
}

/// The generator's state: the tables, the current function (empty outside
/// one), the stack height, whether a function is open, and the lines of the
/// data section, of the function bodies and of the entry code.
pub struct GenState {
    pub vars: GenTables,
    pub curr: String,
    pub height: i32,
    pub in_func: bool,
    pub data: Vec<String>,
    pub funcs: Vec<String>,
    pub start: Vec<String>,
}

impl View for GenState {
    type V = GenStateView;

    open spec fn view(&self) -> GenStateView {
        GenStateView {
            tables: self.vars@,
            curr: self.curr@,
            height: self.height,
            in_func: self.in_func,
            data: views(self.data@),
            funcs: views(self.funcs@),
            start: views(self.start@),
        }
    }
}

/// The lines that a statement adds to: the function bodies inside a function,
/// the entry code outside.
pub open spec fn target(st: GenStateView) -> Seq<Seq<char>> {
    if st.in_func {
        st.funcs
    } else {
        st.start
    }
}

/// The state with the lines of `target` replaced.
pub open spec fn with_target(st: GenStateView, o: Seq<Seq<char>>) -> GenStateView {
    if st.in_func {
        GenStateView { funcs: o, ..st }
    } else {
        GenStateView { start: o, ..st }
    }
}

/// The state after a statement that only adds lines.
pub open spec fn lift(st: GenStateView, r: Result<Seq<Seq<char>>, GenErrorKindView>) -> Result<
    GenStateView,
    GenErrorKindView,
> {
    match r {
        Err(x) => Err(x),
        Ok(o) => Ok(with_target(st, o)),
    }
}

/// A function table with the slot of `name` set to height `h` (added if new).
pub open spec fn set_slot(sc: GenScopeView, name: Seq<char>, h: i32) -> GenScopeView {
    let k = slot_index_from(sc.slot_names, name, 0);
    if k >= 0 {
        GenScopeView { slots: sc.slots.update(k, h), ..sc }
    } else {
        GenScopeView { slot_names: sc.slot_names.push(name), slots: sc.slots.push(h), ..sc }
    }
}

/// The tables with function table `k` replaced.
pub open spec fn put_scope(t: GenTablesView, k: int, sc: GenScopeView) -> GenTablesView {
    GenTablesView { scopes: t.scopes.update(k, sc), ..t }
}

/// A new function table: no arguments, no variables, and the slot of the
/// empty name at height -1.
pub open spec fn new_gen_scope(name: Seq<char>) -> GenScopeView {
    GenScopeView {
        name,
        args_int: Seq::empty(),
        args_names: Seq::empty(),
        vars_int: Seq::empty(),
        vars_names: Seq::empty(),
        slot_names: seq![Seq::<char>::empty()],
        slots: seq![-1i32],
    }
}

/// The tables with a function table put in place of the one of its name, or
/// added; a function named `const` takes the place of the constants' table.
pub open spec fn install_scope(t: GenTablesView, sc: GenScopeView) -> GenTablesView {
    let k = gen_scope_index_from(t.scopes, sc.name, 0);
    GenTablesView {
        const_int: if sc.name == "const"@ {
            None
        } else {
            t.const_int
        },
        scopes: if k >= 0 {
            t.scopes.update(k, sc)
        } else {
            t.scopes.push(sc)
        },
    }
}

/// A name recorded under a type: `int` adds it to the typed list and to the
/// names, `names` adds it to the names twice; another type stops.
pub open spec fn push_typed(ints: Seq<Seq<char>>, names: Seq<Seq<char>>, ty: Seq<char>, v: Seq<char>) -> Option<
    (Seq<Seq<char>>, Seq<Seq<char>>),
> {
    if ty == "int"@ {
        Some((ints.push(v), names.push(v)))
    } else if ty == "names"@ {
        Some((ints, names.push(v).push(v)))
    } else {
        None
    }
}

/// The arguments `parts[i..]` of a function declaration (`typeCOLname`, empty
/// parts skipped) recorded in its table, each with the next stack slot.
pub open spec fn fdec_args(parts: Seq<Seq<char>>, i: int, sc: GenScopeView, h: i32) -> Result<
    (GenScopeView, i32),
    GenErrorKindView,
>
    decreases parts.len() - i,
{
    if i < 0 || i >= parts.len() {
        Ok((sc, h))
    } else if parts[i] == Seq::<char>::empty() {
        fdec_args(parts, i + 1, sc, h)
    } else {
        let p = split_on(parts[i], "COL"@);
        if p.len() < 2 {
            Err(GenErrorKindView::Aborted)
        } else {
            match push_typed(sc.args_int, sc.args_names, p[0], p[1]) {
                None => Err(GenErrorKindView::Aborted),
                Some(lists) => if h == i32::MAX {
                    Err(GenErrorKindView::Aborted)
                } else {
                    fdec_args(
                        parts,
                        i + 1,
                        set_slot(GenScopeView { args_int: lists.0, args_names: lists.1, ..sc }, p[1], h),
                        (h + 1) as i32,
                    )
                },
            }
        }
    }
}

/// The callee's arguments `names[i..]` given the next stack slots after a call.
pub open spec fn call_slots(names: Seq<Seq<char>>, i: int, sc: GenScopeView, h: i32) -> Result<
    (GenScopeView, i32),
    GenErrorKindView,
>
    decreases names.len() - i,
{
    if i < 0 || i >= names.len() {
        Ok((sc, h))
    } else if h == i32::MAX {
        Err(GenErrorKindView::Aborted)
    } else {
        call_slots(names, i + 1, set_slot(sc, names[i], h), (h + 1) as i32)
    }
}

/// A declaration `vdec const type name value...`, after its value was pushed:
/// the constant's data line, and its name in the integer constants' table
/// (only that table exists).
pub open spec fn vdec_const(st: GenStateView, s: Seq<Seq<char>>) -> Result<GenStateView, GenErrorKindView> {
    let value = s.subrange(4, s.len() as int);
    match spec_gen_constant(s[3], s[2], value, st.data) {
        Err(x) => Err(x),
        Ok(d) => if s[2] != "int"@ {
            Err(GenErrorKindView::Aborted)
        } else {
            match st.tables.const_int {
                None => Err(GenErrorKindView::Aborted),
                Some(c) => if concat(value).len() > i32::MAX {
                    Err(GenErrorKindView::Aborted)
                } else {
                    Ok(
                        GenStateView {
                            data: d,
                            tables: GenTablesView { const_int: Some(c.push(s[3])), ..st.tables },
                            ..st
                        },
                    )
                },
            }
        },
    }
}

/// A declaration `vdec kind type name value...` of a local, after its value
/// was pushed: its slot is the current height, its name is recorded under its
/// type, and the height grows by one.
pub open spec fn vdec_local(st: GenStateView, s: Seq<Seq<char>>) -> Result<GenStateView, GenErrorKindView> {
    let t = st.tables;
    let k = gen_scope_index_from(t.scopes, st.curr, 0);
    if k < 0 {
        Err(GenErrorKindView::Aborted)
    } else {
        let sc = set_slot(t.scopes[k], s[3], st.height);
        match push_typed(sc.vars_int, sc.vars_names, s[2], s[3]) {
            None => Err(GenErrorKindView::Aborted),
            Some(lists) => if st.height == i32::MAX {
                Err(GenErrorKindView::Aborted)
            } else {
                Ok(
                    GenStateView {
                        tables: put_scope(
                            t,
                            k,
                            GenScopeView { vars_int: lists.0, vars_names: lists.1, ..sc },
                        ),
                        height: (st.height + 1) as i32,
                        ..st
                    },
                )
            },
        }
    }
}

/// A declaration `vdec kind type name value...`.
pub open spec fn step_vdec(st: GenStateView, s: Seq<Seq<char>>) -> Result<GenStateView, GenErrorKindView> {
    if s.len() < 4 {
        Err(GenErrorKindView::Aborted)
    } else {
        match spec_gen_var_var(s.subrange(4, s.len() as int), st.tables, st.curr, false, target(st)) {
            Err(x) => Err(x),
            Ok(o) => if s[1] == "const"@ {
                vdec_const(with_target(st, o), s)
            } else {
                vdec_local(with_target(st, o), s)
            },
        }
    }
}

/// An assignment `vass name value...`: the value pushed, the variable's slot
/// moved to the current height, and the height grown by one.
pub open spec fn step_vass(st: GenStateView, s: Seq<Seq<char>>) -> Result<GenStateView, GenErrorKindView> {
    if s.len() < 2 {
        Err(GenErrorKindView::Aborted)
    } else {
        match spec_gen_var_var(s.subrange(2, s.len() as int), st.tables, st.curr, false, target(st)) {
            Err(x) => Err(x),
            Ok(o) => {
                let t = st.tables;
                let k = gen_scope_index_from(t.scopes, st.curr, 0);
                if k < 0 || st.height == i32::MAX {
                    Err(GenErrorKindView::Aborted)
                } else {
                    Ok(
                        GenStateView {
                            tables: put_scope(t, k, set_slot(t.scopes[k], s[2], st.height)),
                            height: (st.height + 1) as i32,
                            ..with_target(st, o)
                        },
                    )
                }
            },
        }
    }
}

/// A function declaration `fdec name args...`: its label, a new table for it
/// with its arguments (the entries glued and cut at `,`), and the function
/// opened. A declaration inside a function is refused.
pub open spec fn step_fdec(st: GenStateView, s: Seq<Seq<char>>) -> Result<GenStateView, GenErrorKindView> {
    if st.in_func {
        Err(GenErrorKindView::NestedFunction)
    } else if s.len() < 2 {
        Err(GenErrorKindView::Aborted)
    } else {
        let parts = split_on(concat(s.subrange(2, s.len() as int)), ","@);
        match fdec_args(parts, 0, new_gen_scope(s[1]), st.height) {
            Err(x) => Err(x),
            Ok(r) => Ok(
                GenStateView {
                    tables: install_scope(st.tables, r.0),
                    curr: s[1],
                    height: r.1,
                    in_func: true,
                    funcs: st.funcs.push(s[1] + ":"@),
                    ..st
                },
            ),
        }
    }
}

/// A call statement `fcall name args...`: the call, then the callee's
/// arguments given the next stack slots. A callee without a table is refused
/// once the call's lines are made (it makes none).
pub open spec fn step_fcall(st: GenStateView, s: Seq<Seq<char>>) -> Result<GenStateView, GenErrorKindView> {
    if s.len() < 2 {
        Err(GenErrorKindView::Aborted)
    } else {
        match spec_gen_fnc_call(s[1], s.subrange(2, s.len() as int), st.tables, st.curr, false, target(st)) {
            Err(x) => Err(x),
            Ok(o) => {
                let t = st.tables;
                let k = gen_scope_index_from(t.scopes, s[1], 0);
                if k < 0 {
                    Err(GenErrorKindView::UndefinedFunction)
                } else {
                    match call_slots(t.scopes[k].args_names, 0, t.scopes[k], st.height) {
                        Err(x) => Err(x),
                        Ok(r) => Ok(
                            GenStateView {
                                tables: put_scope(t, k, r.0),
                                height: r.1,
                                ..with_target(st, o)
                            },
                        ),
                    }
                }
            },
        }
    }
}

/// One statement, by its first entry: `out`, `vdec`, `prt`, `prf`, `pre`,
/// `vass`, `fdec`, `endfunc`, `fcall` or `ret`; any other is refused.
pub open spec fn gen_step(st: GenStateView, s: Seq<Seq<char>>) -> Result<GenStateView, GenErrorKindView> {
    let rest = s.subrange(1, s.len() as int);
    if s.len() == 0 {
        Err(GenErrorKindView::Aborted)
    } else if s[0] == "out"@ {
        lift(st, spec_gen_out(rest, st.tables, st.curr, target(st)))
    } else if s[0] == "vdec"@ {
        step_vdec(st, s)
    } else if s[0] == "prt"@ {
        if s.len() < 2 {
            Err(GenErrorKindView::Aborted)
        } else {
            lift(st, spec_gen_print(s[1], target(st)))
        }
    } else if s[0] == "prf"@ {
        lift(st, spec_gen_print_fmt(rest, st.tables, st.curr, true, target(st)))
    } else if s[0] == "pre"@ {
        lift(st, spec_gen_print_fmt(rest, st.tables, st.curr, false, target(st)))
    } else if s[0] == "vass"@ {
        step_vass(st, s)
    } else if s[0] == "fdec"@ {
        step_fdec(st, s)
    } else if s[0] == "endfunc"@ {
        Ok(GenStateView { in_func: false, curr: Seq::empty(), ..st })
    } else if s[0] == "fcall"@ {
        step_fcall(st, s)
    } else if s[0] == "ret"@ {
        if !st.in_func {
            Err(GenErrorKindView::RetOutsideFunction)
        } else {
            lift(st, spec_gen_ret(rest, st.tables, st.curr, target(st)))
        }
    } else {
        Err(GenErrorKindView::UnknownStatement)
    }
}

/// The statements `stmts[i..]` in order; an error carries its statement's index.
pub open spec fn gen_run(stmts: Seq<Seq<Seq<char>>>, i: int, st: GenStateView) -> Result<
    GenStateView,
    GenErrorView,
>
    decreases stmts.len() - i,
{
    if i < 0 || i >= stmts.len() {
        Ok(st)
    } else {
        match gen_step(st, stmts[i]) {
            Err(x) => Err(GenErrorView { at: i as usize, kind: x }),
            Ok(s2) => gen_run(stmts, i + 1, s2),
        }
    }
}

/// The state before the first statement: an empty constants' table, no
/// function, height zero, no lines.
pub open spec fn gen_init() -> GenStateView {
    GenStateView {
        tables: GenTablesView { const_int: Some(Seq::empty()), scopes: Seq::empty() },
        curr: Seq::empty(),
        height: 0,
        in_func: false,
        data: Seq::empty(),
        funcs: Seq::empty(),
        start: Seq::empty(),
    }
}

/// The lines of the assembly file: `section .data` (with `global_start`), the
/// data lines, `section .text`, `    global _start`, the function bodies, the
/// entry code, the `_start:` label, and (with `has_main`) a call of `main`
/// whose result is the exit status.
pub open spec fn asm_lines(st: GenStateView, global_start: bool, has_main: bool) -> Seq<Seq<char>> {
    (if global_start {
        seq!["section .data"@]
    } else {
        Seq::empty()
    }) + st.data + seq!["section .text"@, "    global _start"@] + st.funcs + st.start + seq![
        "_start:"@,
    ] + (if has_main {
        seq!["    call main"@, "    mov rdi, rax"@, "    mov rax, 60"@, "    syscall"@]
    } else {
        Seq::empty()
    })
}

/// The assembly file of a program: its statements run from the initial state.
pub open spec fn spec_write_asm(stmts: Seq<Seq<Seq<char>>>, global_start: bool, has_main: bool) -> Result<
    Seq<Seq<char>>,
    GenErrorView,
> {
    match gen_run(stmts, 0, gen_init()) {
        Err(e) => Err(e),
        Ok(st) => Ok(asm_lines(st, global_start, has_main)),
    }
}

/// Sets the slot of a name (exec form of `set_slot`).
fn set_slot_exec(sc: &mut GenScope, name: &String, h: i32)
    requires
        old(sc)@.slots.len() == old(sc)@.slot_names.len(),
    ensures
        final(sc)@ == set_slot(old(sc)@, name@, h),
        final(sc)@.slots.len() == final(sc)@.slot_names.len(),
{
    match slot_index(sc, name.as_str()) {
        Some(k) => {
            sc.slots[k] = h;
            assert(sc@.slots =~= old(sc)@.slots.update(k as int, h));
        },
        None => {
            let ghost n0 = sc.slot_names@;
            let c = name.clone();
            sc.slot_names.push(c);
            sc.slots.push(h);
            proof {
                lemma_views_push(n0, c);
            }
        },
    }
}

/// Records a name under a type (exec form of `push_typed`); false when the
/// type is neither `int` nor `names`, with nothing changed.
fn push_typed_exec(ints: &mut Vec<String>, names: &mut Vec<String>, ty: &String, v: &String) -> (b: bool)
    ensures
        match push_typed(views(old(ints)@), views(old(names)@), ty@, v@) {
            Some(lists) => b && views(final(ints)@) == lists.0 && views(final(names)@) == lists.1,
            None => !b,
        },
{
    if same(ty.as_str(), "int") {
        push_str(ints, v.clone());
        push_str(names, v.clone());
        true
    } else if same(ty.as_str(), "names") {
        push_str(names, v.clone());
        push_str(names, v.clone());
        true
    } else {
        false
    }
}

/// A new function table (exec form of `new_gen_scope`).
fn new_scope_exec(name: &String) -> (r: GenScope)
    ensures
        r@ == new_gen_scope(name@),
        r@.slots.len() == r@.slot_names.len(),
{
    let mut slot_names: Vec<String> = Vec::new();
    push_str(&mut slot_names, String::new());
    let mut slots: Vec<i32> = Vec::new();
    slots.push(-1);
    let r = GenScope {
        name: name.clone(),
        args_int: Vec::new(),
        args_names: Vec::new(),
        vars_int: Vec::new(),
        vars_names: Vec::new(),
        slot_names,
        slots,
    };
    assert(r@.args_int =~= Seq::<Seq<char>>::empty());
    assert(r@.args_names =~= Seq::<Seq<char>>::empty());
    assert(r@.vars_int =~= Seq::<Seq<char>>::empty());
    assert(r@.vars_names =~= Seq::<Seq<char>>::empty());
    assert(r@.slot_names =~= seq![Seq::<char>::empty()]);
    assert(r@.slots =~= seq![-1i32]);
    r
}

/// Puts function table `k` back after a change (exec form of `put_scope`).
fn put_scope_exec(vars: &mut GenTables, k: usize, sc: GenScope)
    requires
        k < old(vars).scopes@.len(),
    ensures
        final(vars)@ == put_scope(old(vars)@, k as int, sc@),
        final(vars).scopes@.len() == old(vars).scopes@.len(),
{
    let ghost v0 = vars.scopes@;
    vars.scopes[k] = sc;
    assert(gen_scope_views(vars.scopes@) =~= gen_scope_views(v0).update(k as int, sc@));
}

/// Puts a function table in place of the one of its name, or adds it (exec
/// form of `install_scope`).
fn install_scope_exec(vars: &mut GenTables, sc: GenScope)
    requires
        tables_wf(old(vars)@),
        sc@.slots.len() == sc@.slot_names.len(),
    ensures
        final(vars)@ == install_scope(old(vars)@, sc@),
        tables_wf(final(vars)@),
{
    let ghost t0 = vars@;
    let ghost scv = sc@;
    proof {
        reveal_strlit("const");
    }
    if same(sc.name.as_str(), "const") {
        vars.const_table = false;
    }
    match vars.scope_index(sc.name.as_str()) {
        Some(k) => {
            put_scope_exec(vars, k, sc);
        },
        None => {
            let ghost v0 = vars.scopes@;
            vars.scopes.push(sc);
            assert(gen_scope_views(vars.scopes@) =~= gen_scope_views(v0).push(scv));
        },
    }
    assert(vars@.scopes == install_scope(t0, scv).scopes);
    assert(vars@.const_int == install_scope(t0, scv).const_int);
}

/// A state by its view.
pub open spec fn state_result(r: Result<GenState, GenErrorKind>) -> Result<GenStateView, GenErrorKindView> {
    match r {
        Ok(s) => Ok(s@),
        Err(x) => Err(x@),
    }
}

/// The entries of a statement from index `from` on.
fn tail_of(stmt: &Vec<String>, from: usize) -> (r: &[String])
    requires
        from <= stmt@.len(),
    ensures
        views(r@) == views(stmt@).subrange(from as int, stmt@.len() as int),
{
    let r = vstd::slice::slice_subrange(stmt.as_slice(), from, stmt.len());
    assert(views(r@) =~= views(stmt@).subrange(from as int, stmt@.len() as int));
    r
}

/// Takes function table `k` out of the tables, to be put back by `return_scope`.
fn take_scope(vars: &mut GenTables, k: usize) -> (sc: GenScope)
    requires
        k < old(vars).scopes@.len(),
    ensures
        sc@ == old(vars)@.scopes[k as int],
        final(vars).scopes@ == old(vars).scopes@.remove(k as int),
        final(vars).const_table == old(vars).const_table,
        final(vars).const_int@ == old(vars).const_int@,
{
    vars.scopes.remove(k)
}

/// Puts a function table back where `take_scope` took it.
fn return_scope(vars: &mut GenTables, k: usize, sc: GenScope, Ghost(t0): Ghost<GenTables>)
    requires
        k < t0.scopes@.len(),
        old(vars).scopes@ == t0.scopes@.remove(k as int),
        old(vars).const_table == t0.const_table,
        old(vars).const_int@ == t0.const_int@,
    ensures
        final(vars)@ == put_scope(t0@, k as int, sc@),
{
    let ghost scv = sc@;
    vars.scopes.insert(k, sc);
    assert(vars.scopes@ =~= t0.scopes@.update(k as int, vars.scopes@[k as int]));
    assert(gen_scope_views(vars.scopes@) =~= gen_scope_views(t0.scopes@).update(k as int, scv));
}

/// A declaration (exec form of `step_vdec`).
fn exec_vdec(st: GenState, stmt: &Vec<String>) -> (r: Result<GenState, GenErrorKind>)
    requires
        tables_wf(st@.tables),
    ensures
        state_result(r) == step_vdec(st@, views(stmt@)),
        r matches Ok(s2) ==> tables_wf(s2@.tables),
{
    let ghost s = views(stmt@);
    let ghost s0 = st@;
    if stmt.len() < 4 {
        return Err(GenErrorKind::Aborted);
    }
    let value = tail_of(stmt, 4);
    let GenState { mut vars, curr, mut height, in_func, mut data, mut funcs, mut start } = st;
    if in_func {
        funcs = gen_var_var(value, &vars, &curr, false, funcs)?;
    } else {
        start = gen_var_var(value, &vars, &curr, false, start)?;
    }
    let ghost s1 = GenStateView { funcs: views(funcs@), start: views(start@), ..s0 };
    assert(s1 == with_target(s0, target(s1)));
    assert(s[1] == stmt@[1]@ && s[2] == stmt@[2]@ && s[3] == stmt@[3]@);
    proof {
        reveal_strlit("const");
    }
    if same(stmt[1].as_str(), "const") {
        data = gen_constant(&stmt[3], &stmt[2], value, data)?;
        if !same(stmt[2].as_str(), "int") || !vars.const_table {
            return Err(GenErrorKind::Aborted);
        }
        let c = concat_strings(value);
        let cc = chars_of(c.as_str());
        if cc.len() > i32::MAX as usize {
            return Err(GenErrorKind::Aborted);
        }
        push_str(&mut vars.const_int, stmt[3].clone());
    } else {
        let k = match vars.scope_index(curr.as_str()) {
            None => {
                return Err(GenErrorKind::Aborted);
            },
            Some(k) => k,
        };
        let ghost t0 = vars;
        let mut sc = take_scope(&mut vars, k);
        set_slot_exec(&mut sc, &stmt[3], height);
        if !push_typed_exec(&mut sc.vars_int, &mut sc.vars_names, &stmt[2], &stmt[3]) {
            return Err(GenErrorKind::Aborted);
        }
        if height == i32::MAX {
            return Err(GenErrorKind::Aborted);
        }
        return_scope(&mut vars, k, sc, Ghost(t0));
        height += 1;
    }
    let r = GenState { vars, curr, height, in_func, data, funcs, start };
    Ok(r)
}

/// An assignment (exec form of `step_vass`).
fn exec_vass(st: GenState, stmt: &Vec<String>) -> (r: Result<GenState, GenErrorKind>)
    requires
        tables_wf(st@.tables),
    ensures
        state_result(r) == step_vass(st@, views(stmt@)),
        r matches Ok(s2) ==> tables_wf(s2@.tables),
{
    let ghost s = views(stmt@);
    let ghost s0 = st@;
    if stmt.len() < 2 {
        return Err(GenErrorKind::Aborted);
    }
    let value = tail_of(stmt, 2);
    let GenState { mut vars, curr, mut height, in_func, data, mut funcs, mut start } = st;
    if in_func {
        funcs = gen_var_var(value, &vars, &curr, false, funcs)?;
    } else {
        start = gen_var_var(value, &vars, &curr, false, start)?;
    }
    assert(s[2] == stmt@[2]@);
    let k = match vars.scope_index(curr.as_str()) {
        None => {
            return Err(GenErrorKind::Aborted);
        },
        Some(k) => k,
    };
    if height == i32::MAX {
        return Err(GenErrorKind::Aborted);
    }
    let ghost t0 = vars;
    let mut sc = take_scope(&mut vars, k);
    set_slot_exec(&mut sc, &stmt[2], height);
    return_scope(&mut vars, k, sc, Ghost(t0));
    height += 1;
    let r = GenState { vars, curr, height, in_func, data, funcs, start };
    Ok(r)
}

/// The pair of a table and a height by the table's view.
pub open spec fn scope_result(r: Result<(GenScope, i32), GenErrorKind>) -> Result<(GenScopeView, i32), GenErrorKindView> {
    match r {
        Ok(p) => Ok((p.0@, p.1)),
        Err(x) => Err(x@),
    }
}

/// The arguments of a declaration recorded (exec form of `fdec_args`).
fn fdec_args_exec(parts: &Vec<String>, sc0: GenScope, h0: i32) -> (r: Result<(GenScope, i32), GenErrorKind>)
    requires
        sc0@.slots.len() == sc0@.slot_names.len(),
    ensures
        scope_result(r) == fdec_args(views(parts@), 0, sc0@, h0),
        r matches Ok(p) ==> p.0@.slots.len() == p.0@.slot_names.len(),
{
    let ghost pv = views(parts@);
    let ghost goal = fdec_args(pv, 0, sc0@, h0);
    let mut sc = sc0;
    let mut h = h0;
    let mut i: usize = 0;
    while i < parts.len()
        invariant
            pv == views(parts@),
            i <= parts@.len(),
            sc@.slots.len() == sc@.slot_names.len(),
            fdec_args(pv, i as int, sc@, h) == goal,
            goal == fdec_args(views(parts@), 0, sc0@, h0),
        decreases parts.len() - i,
    {
        let arg = &parts[i];
        assert(pv[i as int] == arg@);
        proof {
            reveal_strlit("");
            reveal_strlit("COL");
            assert(""@ =~= Seq::<char>::empty());
        }
        if !same(arg.as_str(), "") {
            let p = split(arg.as_str(), "COL");
            if p.len() < 2 {
                return Err(GenErrorKind::Aborted);
            }
            assert(views(p@)[0] == p@[0]@ && views(p@)[1] == p@[1]@);
            if !push_typed_exec(&mut sc.args_int, &mut sc.args_names, &p[0], &p[1]) {
                return Err(GenErrorKind::Aborted);
            }
            if h == i32::MAX {
                return Err(GenErrorKind::Aborted);
            }
            set_slot_exec(&mut sc, &p[1], h);
            h += 1;
        }
        i += 1;
    }
    Ok((sc, h))
}

/// The callee's arguments given the next slots (exec form of `call_slots`).
fn call_slots_exec(names: &Vec<String>, sc0: GenScope, h0: i32) -> (r: Result<(GenScope, i32), GenErrorKind>)
    requires
        sc0@.slots.len() == sc0@.slot_names.len(),
    ensures
        scope_result(r) == call_slots(views(names@), 0, sc0@, h0),
        r matches Ok(p) ==> p.0@.slots.len() == p.0@.slot_names.len(),
{
    let ghost nv = views(names@);
    let ghost goal = call_slots(nv, 0, sc0@, h0);
    let mut sc = sc0;
    let mut h = h0;
    let mut i: usize = 0;
    while i < names.len()
        invariant
            nv == views(names@),
            i <= names@.len(),
            sc@.slots.len() == sc@.slot_names.len(),
            call_slots(nv, i as int, sc@, h) == goal,
            goal == call_slots(views(names@), 0, sc0@, h0),
        decreases names.len() - i,
    {
        if h == i32::MAX {
            return Err(GenErrorKind::Aborted);
        }
        assert(nv[i as int] == names@[i as int]@);
        set_slot_exec(&mut sc, &names[i], h);
        h += 1;
        i += 1;
    }
    Ok((sc, h))
}

/// A function declaration (exec form of `step_fdec`).
fn exec_fdec(st: GenState, stmt: &Vec<String>) -> (r: Result<GenState, GenErrorKind>)
    requires
        tables_wf(st@.tables),
    ensures
        state_result(r) == step_fdec(st@, views(stmt@)),
        r matches Ok(s2) ==> tables_wf(s2@.tables),
{
    let ghost s = views(stmt@);
    let GenState { mut vars, curr, height, in_func, data, funcs, start } = st;
    if in_func {
        return Err(GenErrorKind::NestedFunction);
    }
    if stmt.len() < 2 {
        return Err(GenErrorKind::Aborted);
    }
    assert(s[1] == stmt@[1]@);
    let funcs = gen_fnc_dec(&stmt[1], funcs);
    let all = concat_strings(tail_of(stmt, 2));
    proof {
        reveal_strlit(",");
    }
    let parts = split(all.as_str(), ",");
    let sc0 = new_scope_exec(&stmt[1]);
    let (sc, h) = fdec_args_exec(&parts, sc0, height)?;
    install_scope_exec(&mut vars, sc);
    let curr = stmt[1].clone();
    let r = GenState { vars, curr, height: h, in_func: true, data, funcs, start };
    Ok(r)
}

/// A call statement (exec form of `step_fcall`).
fn exec_fcall(st: GenState, stmt: &Vec<String>) -> (r: Result<GenState, GenErrorKind>)
    requires
        tables_wf(st@.tables),
    ensures
        state_result(r) == step_fcall(st@, views(stmt@)),
        r matches Ok(s2) ==> tables_wf(s2@.tables),
{
    let ghost s = views(stmt@);
    if stmt.len() < 2 {
        return Err(GenErrorKind::Aborted);
    }
    assert(s[1] == stmt@[1]@);
    let args = tail_of(stmt, 2);
    let GenState { mut vars, curr, height, in_func, data, mut funcs, mut start } = st;
    if in_func {
        funcs = gen_fnc_call(&stmt[1], args, &vars, &curr, false, funcs)?;
    } else {
        start = gen_fnc_call(&stmt[1], args, &vars, &curr, false, start)?;
    }
    let k = match vars.scope_index(stmt[1].as_str()) {
        None => {
            return Err(GenErrorKind::UndefinedFunction);
        },
        Some(k) => k,
    };
    let ghost t0 = vars;
    let sc = take_scope(&mut vars, k);
    let names = crate::parser::copy_tokens(sc.args_names.as_slice());
    let (sc, h) = call_slots_exec(&names, sc, height)?;
    return_scope(&mut vars, k, sc, Ghost(t0));
    let r = GenState { vars, curr, height: h, in_func, data, funcs, start };
    Ok(r)
}

/// A statement that only adds lines (exec form of `lift`), given the state
/// with its target taken out by `take_target`.
fn lift_exec(st: GenState, r: Result<Vec<String>, GenErrorKind>, Ghost(sv): Ghost<GenStateView>) -> (out:
    Result<GenState, GenErrorKind>)
    requires
        st@ == with_target(sv, Seq::empty()),
        st.in_func == sv.in_func,
    ensures
        state_result(out) == lift(sv, gen_result(r)),
        out matches Ok(s2) ==> s2@.tables == sv.tables,
{
    let o = r?;
    let GenState { vars, curr, height, in_func, data, funcs, start } = st;
    if in_func {
        let s2 = GenState { vars, curr, height, in_func, data, funcs: o, start };
        assert(s2@ =~= with_target(sv, views(o@)));
        Ok(s2)
    } else {
        let s2 = GenState { vars, curr, height, in_func, data, funcs, start: o };
        assert(s2@ =~= with_target(sv, views(o@)));
        Ok(s2)
    }
}

/// The lines a statement adds to, taken out of the state (see `target`).
fn take_target(st: &mut GenState) -> (o: Vec<String>)
    ensures
        views(o@) == target(old(st)@),
        final(st)@ == with_target(old(st)@, Seq::empty()),
        final(st).in_func == old(st).in_func,
{
    let mut o: Vec<String> = Vec::new();
    assert(views(o@) =~= Seq::<Seq<char>>::empty());
    if st.in_func {
        std::mem::swap(&mut o, &mut st.funcs);
    } else {
        std::mem::swap(&mut o, &mut st.start);
    }
    o
}

/// One statement (exec form of `gen_step`).
fn gen_stmt(st: GenState, stmt: &Vec<String>) -> (r: Result<GenState, GenErrorKind>)
    requires
        tables_wf(st@.tables),
    ensures
        state_result(r) == gen_step(st@, views(stmt@)),
        r matches Ok(s2) ==> tables_wf(s2@.tables),
{
    let ghost s = views(stmt@);
    let ghost sv = st@;
    if stmt.len() == 0 {
        return Err(GenErrorKind::Aborted);
    }
    let kind = stmt[0].as_str();
    assert(s[0] == kind@);
    let rest = tail_of(stmt, 1);
    let mut st = st;
    if same(kind, "out") {
        let tgt = take_target(&mut st);
        let r = gen_out(rest, &st.vars, &st.curr, tgt);
        lift_exec(st, r, Ghost(sv))
    } else if same(kind, "vdec") {
        exec_vdec(st, stmt)
    } else if same(kind, "prt") {
        if stmt.len() < 2 {
            return Err(GenErrorKind::Aborted);
        }
        assert(s[1] == stmt@[1]@);
        let tgt = take_target(&mut st);
        let r = gen_print(&stmt[1], tgt);
        lift_exec(st, r, Ghost(sv))
    } else if same(kind, "prf") {
        let tgt = take_target(&mut st);
        let r = gen_print_f(rest, &st.vars, &st.curr, tgt);
        lift_exec(st, r, Ghost(sv))
    } else if same(kind, "pre") {
        let tgt = take_target(&mut st);
        let r = gen_print_e(rest, &st.vars, &st.curr, tgt);
        lift_exec(st, r, Ghost(sv))
    } else if same(kind, "vass") {
        exec_vass(st, stmt)
    } else if same(kind, "fdec") {
        exec_fdec(st, stmt)
    } else if same(kind, "endfunc") {
        st.in_func = false;
        st.curr = String::new();
        assert(st@ =~= GenStateView { in_func: false, curr: Seq::empty(), ..sv });
        Ok(st)
    } else if same(kind, "fcall") {
        exec_fcall(st, stmt)
    } else if same(kind, "ret") {
        if !st.in_func {
            return Err(GenErrorKind::RetOutsideFunction);
        }
        let tgt = take_target(&mut st);
        let r = gen_ret(rest, &st.vars, &st.curr, tgt);
        lift_exec(st, r, Ghost(sv))
    } else {
        Err(GenErrorKind::UnknownStatement)
    }
}

/// The lines of the assembly file after the last statement (exec form of
/// `asm_lines`).
fn asm_file(st: &GenState, global_start: bool, has_main: bool) -> (out: Vec<String>)
    ensures
        views(out@) == asm_lines(st@, global_start, has_main),
{
    let mut out: Vec<String> = Vec::new();
    assert(views(out@) =~= Seq::<Seq<char>>::empty());
    if global_start {
        push_str(&mut out, lit("section .data"));
    }
    let ghost o1 = views(out@);
    append_lines(&mut out, &st.data);
    push_str(&mut out, lit("section .text"));
    push_str(&mut out, lit("    global _start"));
    append_lines(&mut out, &st.funcs);
    append_lines(&mut out, &st.start);
    push_str(&mut out, lit("_start:"));
    let ghost o2 = views(out@);
    if has_main {
        push_str(&mut out, lit("    call main"));
        push_str(&mut out, lit("    mov rdi, rax"));
        push_str(&mut out, lit("    mov rax, 60"));
        push_str(&mut out, lit("    syscall"));
    }
    assert(o1 =~= (if global_start {
        seq!["section .data"@]
    } else {
        Seq::empty()
    }));
    assert(o2 =~= o1 + st@.data + seq!["section .text"@, "    global _start"@] + st@.funcs + st@.start
        + seq!["_start:"@]);
    assert(views(out@) =~= o2 + (if has_main {
        seq!["    call main"@, "    mov rdi, rax"@, "    mov rax, 60"@, "    syscall"@]
    } else {
        Seq::empty()
    }));
    out
}

/// The lines of the assembly file of a program (see `spec_write_asm`); the
/// caller writes them to the file. The names of the functions without a table
/// that the statements generated before the first error call are added to
/// `warnings`, in the order of the calls (see `w_run`).
pub fn write_asm(
    stmts: &Vec<Vec<String>>,
    global_start: bool,
    has_main: bool,
    warnings: &mut Vec<String>,
) -> (r: Result<Vec<String>, GenError>)
    ensures
        match r {
            Ok(v) => spec_write_asm(stmt_views(stmts@), global_start, has_main) == Ok::<
                Seq<Seq<char>>,
                GenErrorView,
            >(views(v@)),
            Err(e) => spec_write_asm(stmt_views(stmts@), global_start, has_main) == Err::<
                Seq<Seq<char>>,
                GenErrorView,
            >(e@),
        },
        views(final(warnings)@) == views(old(warnings)@) + w_run(stmt_views(stmts@), 0, gen_init()),
{
    let ghost sv = stmt_views(stmts@);
    let vars = GenTables { const_table: true, const_int: Vec::new(), scopes: Vec::new() };
    let mut st = GenState {
        vars,
        curr: String::new(),
        height: 0,
        in_func: false,
        data: Vec::new(),
        funcs: Vec::new(),
        start: Vec::new(),
    };
    assert(st@ =~= gen_init()) by {
        assert(st@.tables.scopes =~= Seq::<GenScopeView>::empty());
        assert(views(st.vars.const_int@) =~= Seq::<Seq<char>>::empty());
        assert(views(st.data@) =~= Seq::<Seq<char>>::empty());
        assert(views(st.funcs@) =~= Seq::<Seq<char>>::empty());
        assert(views(st.start@) =~= Seq::<Seq<char>>::empty());
    }
    let ghost w0 = views(warnings@);
    let mut i: usize = 0;
    while i < stmts.len()
        invariant
            sv == stmt_views(stmts@),
            i <= stmts@.len(),
            tables_wf(st@.tables),
            gen_run(sv, i as int, st@) == gen_run(sv, 0, gen_init()),
            views(warnings@) + w_run(sv, i as int, st@) == w0 + w_run(sv, 0, gen_init()),
            w0 == views(old(warnings)@),
        decreases stmts.len() - i,
    {
        assert(sv[i as int] == views(stmts@[i as int]@));
        let mut sw: Vec<String> = Vec::new();
        assert(views(sw@) =~= Seq::<Seq<char>>::empty());
        stmt_warnings(&st, &stmts[i], &mut sw);
        let ghost before = st@;
        st = match gen_stmt(st, &stmts[i]) {
            Ok(s2) => s2,
            Err(kind) => {
                let ghost wb = views(warnings@);
                append_lines(warnings, &sw);
                assert(views(warnings@) =~= wb + w_run(sv, i as int, before));
                return Err(GenError { at: i, kind });
            },
        };
        let ghost wb = views(warnings@);
        append_lines(warnings, &sw);
        assert(views(warnings@) + w_run(sv, i + 1, st@) =~= wb + w_run(sv, i as int, before));
        i += 1;
    }
    assert(views(warnings@) + w_run(sv, i as int, st@) =~= views(warnings@));
    Ok(asm_file(&st, global_start, has_main))
}

/// Appends copies of the lines.
fn append_lines(out: &mut Vec<String>, lines: &Vec<String>)
    ensures
        views(final(out)@) == views(old(out)@) + views(lines@),
{
    let ghost o0 = views(out@);
    let mut k: usize = 0;
    while k < lines.len()
        invariant
            k <= lines@.len(),
            views(out@) == o0 + views(lines@).take(k as int),
        decreases lines.len() - k,
    {
        let ghost ob = views(out@);
        push_str(out, lines[k].clone());
        proof {
            lemma_views_take_next(lines@, k as int);
            assert(views(out@) =~= o0 + views(lines@).take(k + 1));
        }
        k += 1;
    }
    assert(views(lines@).take(lines@.len() as int) =~= views(lines@));
}

// ---------------------------------------------------------------------------
// Warnings: calls of functions without a table
// ---------------------------------------------------------------------------

/// The warning of a call: the callee's name when it has no table. Such a call
/// adds no line and the generation goes on.
pub open spec fn w_fnc_call(name: Seq<char>, t: GenTablesView) -> Seq<Seq<char>> {
    if gen_scope_of(t, name) is None && !(name == "const"@ && t.const_int is Some) {
        seq![name]
    } else {
        Seq::empty()
    }
}

/// The warning of an operand that is a call (`fcall!name!args...`).
pub open spec fn w_call_operand(v: Seq<char>, t: GenTablesView) -> Seq<Seq<char>> {
    let parts = split_on(v, "!"@);
    if parts.len() >= 2 {
        w_fnc_call(parts[1], t)
    } else {
        Seq::empty()
    }
}

/// The warning of an operand load (of an addition or subtraction when
/// `for_add`, else of a multiplication or division): only a call warns.
pub open spec fn w_load(v: Seq<char>, for_add: bool, t: GenTablesView, curr: Seq<char>) -> Seq<
    Seq<char>,
> {
    let direct = if for_add {
        spec_is_int_lit(v) || v == "STACK"@
    } else {
        v != "0"@ && spec_is_int_lit(v)
    };
    if direct {
        Seq::empty()
    } else {
        match gen_scope_of(t, curr) {
            None => Seq::empty(),
            Some(sc) => if has_slot(sc, v) {
                Seq::empty()
            } else if has_substring(v, "fcall"@) {
                w_call_operand(v, t)
            } else {
                Seq::empty()
            },
        }
    }
}

/// The warnings of an arithmetic step: the right operand's, then the left's.
pub open spec fn w_arith(op: Arith, lhs: Seq<char>, rhs: Seq<char>, t: GenTablesView, curr: Seq<char>) -> Seq<
    Seq<char>,
> {
    let a = op is Add || op is Sub;
    w_load(rhs, a, t, curr) + w_load(lhs, a, t, curr)
}

/// The operation of a binary step, by the first operator name it holds.
pub open spec fn step_op(x: Seq<char>) -> Option<Arith> {
    if has_substring(x, "PLUS"@) {
        Some(Arith::Add)
    } else if has_substring(x, "TIMES"@) {
        Some(Arith::Mul)
    } else if has_substring(x, "MIN"@) {
        Some(Arith::Sub)
    } else if has_substring(x, "DIV"@) {
        Some(Arith::Div)
    } else {
        None
    }
}

/// The warnings of the binary steps `e[i..]`, in order, up to the step that
/// fails, if one does: a step whose right operand fails warns nothing, one
/// whose left operand fails warns for its right operand. (Whether a step fails
/// does not depend on the lines before it, so it is asked on no lines.)
pub open spec fn w_bin_steps(e: Seq<Seq<char>>, i: int, t: GenTablesView, curr: Seq<char>, in_print: bool) -> Seq<
    Seq<char>,
>
    decreases e.len() - i,
{
    if i < 0 || i >= e.len() {
        Seq::empty()
    } else {
        let parts = split_on(e[i], " "@);
        match step_op(e[i]) {
            None => w_bin_steps(e, i + 1, t, curr, in_print),
            Some(op) => if parts.len() < 3 {
                Seq::empty()
            } else {
                let a = op is Add || op is Sub;
                let rhs = if a {
                    load_add_operand(parts[2], "rbx"@, true, t, curr, in_print, Seq::empty())
                } else {
                    load_mul_operand(parts[2], "rbx"@, true, t, curr, in_print, Seq::empty())
                };
                if rhs is Err {
                    Seq::empty()
                } else if spec_gen_arith(op, parts[0], parts[2], t, curr, in_print, Seq::empty()) is Err {
                    w_arith(op, parts[0], parts[2], t, curr)
                } else {
                    w_arith(op, parts[0], parts[2], t, curr) + w_bin_steps(e, i + 1, t, curr, in_print)
                }
            },
        }
    }
}

/// The warnings of one term of a formatted print.
pub open spec fn w_fmt_term(term: Seq<char>, t: GenTablesView, curr: Seq<char>) -> Seq<Seq<char>> {
    if term.len() > 0 && term[0] == '"' {
        Seq::empty()
    } else if spec_gen_is_bin_expr(term) {
        w_bin_steps(seq![term], 0, t, curr, true)
    } else if spec_gen_is_fnc_call(term) {
        let w = words(term);
        if w.len() >= 2 {
            w_fnc_call(w[1], t)
        } else {
            Seq::empty()
        }
    } else {
        Seq::empty()
    }
}

/// The warnings of the terms `prf[i..]` of a formatted print to standard
/// output (`to_stdout`) or error, in order, up to the term that fails.
pub open spec fn w_fmt_terms(
    prf: Seq<Seq<char>>,
    i: int,
    t: GenTablesView,
    curr: Seq<char>,
    to_stdout: bool,
) -> Seq<Seq<char>>
    decreases prf.len() - i,
{
    if i < 0 || i >= prf.len() {
        Seq::empty()
    } else if fmt_term(prf[i], t, curr, to_stdout, Seq::empty()) is Err {
        w_fmt_term(prf[i], t, curr)
    } else {
        w_fmt_term(prf[i], t, curr) + w_fmt_terms(prf, i + 1, t, curr, to_stdout)
    }
}

/// The warning of a call written in a statement entry (`fcall name args...`).
pub open spec fn w_stmt_call(v: Seq<char>, t: GenTablesView) -> Seq<Seq<char>> {
    let parts = split_on(v, " "@);
    if parts.len() >= 2 {
        w_fnc_call(parts[1], t)
    } else {
        Seq::empty()
    }
}

/// The warnings of a returned value (see `ret_value`).
pub open spec fn w_ret_value(rv: Seq<Seq<char>>, t: GenTablesView, curr: Seq<char>) -> Seq<Seq<char>> {
    if rv.len() != 1 || spec_has_bin_expr(rv) || spec_gen_is_fnc_call(rv[0]) {
        if spec_has_bin_expr(rv) {
            w_bin_steps(rv, 0, t, curr, false)
        } else if spec_gen_is_fnc_call(rv[0]) {
            w_stmt_call(rv[0], t)
        } else {
            Seq::empty()
        }
    } else {
        Seq::empty()
    }
}

/// The warnings of an exit value (see `out_value`).
pub open spec fn w_out_value(ov: Seq<Seq<char>>, t: GenTablesView, curr: Seq<char>) -> Seq<Seq<char>> {
    if ov.len() > 1 {
        if spec_has_bin_expr(ov) {
            w_bin_steps(ov, 0, t, curr, false)
        } else {
            Seq::empty()
        }
    } else if ov.len() == 0 {
        Seq::empty()
    } else if spec_gen_is_bin_expr(ov[0]) {
        w_bin_steps(ov, 0, t, curr, false)
    } else if spec_gen_is_fnc_call(ov[0]) {
        w_stmt_call(ov[0], t)
    } else {
        Seq::empty()
    }
}

/// The warnings of an assigned value (see `spec_gen_var_var`).
pub open spec fn w_var_var(vv: Seq<Seq<char>>, t: GenTablesView, curr: Seq<char>) -> Seq<Seq<char>> {
    if vv.len() == 0 {
        Seq::empty()
    } else if vv.len() > 1 || spec_gen_is_bin_expr(vv[0]) {
        w_bin_steps(vv, 0, t, curr, false)
    } else if spec_gen_is_fnc_call(vv[0]) {
        w_stmt_call(vv[0], t)
    } else {
        Seq::empty()
    }
}

/// The names of the functions without a table that a statement calls, in the
/// order of the calls, up to the point where the statement fails, if it does.
/// (A call statement of such a function warns, then is refused with
/// `UndefinedFunction`.)
pub open spec fn w_step(st: GenStateView, s: Seq<Seq<char>>) -> Seq<Seq<char>> {
    let rest = s.subrange(1, s.len() as int);
    let t = st.tables;
    let curr = st.curr;
    if s.len() == 0 {
        Seq::empty()
    } else if s[0] == "out"@ {
        w_out_value(rest, t, curr)
    } else if s[0] == "vdec"@ {
        if s.len() >= 4 {
            w_var_var(s.subrange(4, s.len() as int), t, curr)
        } else {
            Seq::empty()
        }
    } else if s[0] == "prf"@ {
        w_fmt_terms(rest, 0, t, curr, true)
    } else if s[0] == "pre"@ {
        w_fmt_terms(rest, 0, t, curr, false)
    } else if s[0] == "vass"@ {
        if s.len() >= 2 {
            w_var_var(s.subrange(2, s.len() as int), t, curr)
        } else {
            Seq::empty()
        }
    } else if s[0] == "fcall"@ {
        if s.len() >= 2 {
            w_fnc_call(s[1], t)
        } else {
            Seq::empty()
        }
    } else if s[0] == "ret"@ {
        if st.in_func {
            w_ret_value(rest, t, curr)
        } else {
            Seq::empty()
        }
    } else {
        Seq::empty()
    }
}

/// The warnings of the statements `stmts[i..]`, in order, up to the point
/// where the first error stops the generation.
pub open spec fn w_run(stmts: Seq<Seq<Seq<char>>>, i: int, st: GenStateView) -> Seq<Seq<char>>
    decreases stmts.len() - i,
{
    if i < 0 || i >= stmts.len() {
        Seq::empty()
    } else {
        match gen_step(st, stmts[i]) {
            Err(_) => w_step(st, stmts[i]),
            Ok(s2) => w_step(st, stmts[i]) + w_run(stmts, i + 1, s2),
        }
    }
}

/// Adds the warning of a call (exec form of `w_fnc_call`).
fn warn_fnc_call(name: &str, vars: &GenTables, w: &mut Vec<String>)
    ensures
        views(final(w)@) == views(old(w)@) + w_fnc_call(name@, vars@),
{
    if vars.scope_index(name).is_none() && !(same(name, "const") && vars.const_table) {
        push_str(w, lit(name));
        assert(views(w@) =~= views(old(w)@) + w_fnc_call(name@, vars@));
    } else {
        assert(views(w@) =~= views(old(w)@) + w_fnc_call(name@, vars@));
    }
}

/// Adds the warning of a call named by the second piece of `v` cut at `sep`.
fn warn_named_call(v: &String, sep: &str, vars: &GenTables, w: &mut Vec<String>)
    requires
        sep@.len() > 0,
    ensures
        views(final(w)@) == views(old(w)@) + (if split_on(v@, sep@).len() >= 2 {
            w_fnc_call(split_on(v@, sep@)[1], vars@)
        } else {
            Seq::empty()
        }),
{
    let parts = split(v.as_str(), sep);
    if parts.len() >= 2 {
        assert(views(parts@)[1] == parts@[1]@);
        warn_fnc_call(parts[1].as_str(), vars, w);
    } else {
        assert(views(w@) =~= views(old(w)@) + Seq::<Seq<char>>::empty());
    }
}

/// Adds the warnings of an operand load (exec form of `w_load`).
fn warn_load(v: &String, for_add: bool, vars: &GenTables, curr: &String, w: &mut Vec<String>)
    ensures
        views(final(w)@) == views(old(w)@) + w_load(v@, for_add, vars@, curr@),
{
    let lit_val = is_int_lit(v);
    let direct = if for_add {
        lit_val || same(v.as_str(), "STACK")
    } else {
        !same(v.as_str(), "0") && lit_val
    };
    assert(views(w@) =~= views(w@) + Seq::<Seq<char>>::empty());
    if direct {
        return;
    }
    let k = match vars.scope_index(curr.as_str()) {
        None => {
            return;
        },
        Some(k) => k,
    };
    let sc = &vars.scopes[k];
    assert(vars@.scopes[k as int] == sc@);
    if has_slot_exec(sc, v.as_str()) {
        return;
    }
    if contains(v.as_str(), "fcall") {
        proof {
            reveal_strlit("!");
        }
        warn_named_call(v, "!", vars, w);
    }
}

/// Adds the warnings of the binary steps (exec form of `w_bin_steps`).
#[verifier::rlimit(60)]
fn warn_bin_steps(e: &[String], vars: &GenTables, curr: &String, in_print: bool, w: &mut Vec<String>)
    requires
        tables_wf(vars@),
    ensures
        views(final(w)@) == views(old(w)@) + w_bin_steps(views(e@), 0, vars@, curr@, in_print),
{
    let ghost ev = views(e@);
    let ghost w0 = views(w@);
    let mut i: usize = 0;
    while i < e.len()
        invariant
            ev == views(e@),
            i <= e@.len(),
            tables_wf(vars@),
            w0 == views(old(w)@),
            views(w@) + w_bin_steps(ev, i as int, vars@, curr@, in_print) == w0 + w_bin_steps(
                ev,
                0,
                vars@,
                curr@,
                in_print,
            ),
        decreases e.len() - i,
    {
        let x = &e[i];
        assert(ev[i as int] == x@);
        let ghost wb = views(w@);
        let op = if contains(x.as_str(), "PLUS") {
            Some(Arith::Add)
        } else if contains(x.as_str(), "TIMES") {
            Some(Arith::Mul)
        } else if contains(x.as_str(), "MIN") {
            Some(Arith::Sub)
        } else if contains(x.as_str(), "DIV") {
            Some(Arith::Div)
        } else {
            None
        };
        assert(op == step_op(x@));
        proof {
            reveal_strlit(" ");
        }
        let parts = split(x.as_str(), " ");
        match op {
            Some(op) => {
                if parts.len() < 3 {
                    assert(views(w@) =~= w0 + w_bin_steps(ev, 0, vars@, curr@, in_print));
                    return;
                }
                let a = match op {
                    Arith::Add => true,
                    Arith::Sub => true,
                    _ => false,
                };
                assert(views(parts@)[0] == parts@[0]@ && views(parts@)[2] == parts@[2]@);
                let e1: Vec<String> = Vec::new();
                assert(views(e1@) =~= Seq::<Seq<char>>::empty());
                let rhs_ok = load_operand(&parts[2], "rbx", true, a, vars, curr, in_print, e1).is_ok();
                proof {
                    reveal_strlit("rbx");
                }
                if !rhs_ok {
                    assert(views(w@) =~= w0 + w_bin_steps(ev, 0, vars@, curr@, in_print));
                    return;
                }
                warn_load(&parts[2], a, vars, curr, w);
                warn_load(&parts[0], a, vars, curr, w);
                let e2: Vec<String> = Vec::new();
                assert(views(e2@) =~= Seq::<Seq<char>>::empty());
                let step_ok = gen_arith(op, &parts[0], &parts[2], vars, curr, in_print, e2).is_ok();
                if !step_ok {
                    assert(views(w@) =~= wb + w_bin_steps(ev, i as int, vars@, curr@, in_print));
                    assert(views(w@) =~= w0 + w_bin_steps(ev, 0, vars@, curr@, in_print));
                    return;
                }
            },
            None => {},
        }
        assert(w_bin_steps(ev, i as int, vars@, curr@, in_print) =~= (views(w@).subrange(
            wb.len() as int,
            views(w@).len() as int,
        )) + w_bin_steps(ev, i + 1, vars@, curr@, in_print)) by {
            assert(views(w@) =~= wb + views(w@).subrange(wb.len() as int, views(w@).len() as int));
        }
        assert(views(w@) + w_bin_steps(ev, i + 1, vars@, curr@, in_print) =~= wb + w_bin_steps(
            ev,
            i as int,
            vars@,
            curr@,
            in_print,
        ));
        i += 1;
    }
    assert(views(w@) + w_bin_steps(ev, i as int, vars@, curr@, in_print) =~= views(w@));
}

/// Adds the warnings of the terms of a formatted print (exec form of
/// `w_fmt_terms`).
fn warn_fmt_terms(prf: &[String], vars: &GenTables, curr: &String, to_stdout: bool, w: &mut Vec<String>)
    requires
        tables_wf(vars@),
    ensures
        views(final(w)@) == views(old(w)@) + w_fmt_terms(views(prf@), 0, vars@, curr@, to_stdout),
{
    let ghost pv = views(prf@);
    let ghost w0 = views(w@);
    let mut i: usize = 0;
    while i < prf.len()
        invariant
            pv == views(prf@),
            i <= prf@.len(),
            tables_wf(vars@),
            w0 == views(old(w)@),
            views(w@) + w_fmt_terms(pv, i as int, vars@, curr@, to_stdout) == w0 + w_fmt_terms(
                pv,
                0,
                vars@,
                curr@,
                to_stdout,
            ),
        decreases prf.len() - i,
    {
        let term = &prf[i];
        assert(pv[i as int] == term@);
        let ghost wb = views(w@);
        let chars = chars_of(term.as_str());
        if chars.len() > 0 && chars[0] == '"' {
        } else if is_bin_expr(term) {
            let one = vec![term.clone()];
            assert(views(one@) =~= seq![term@]);
            warn_bin_steps(one.as_slice(), vars, curr, true, w);
        } else if is_fnc_call(term) {
            let words_v = split_words(term.as_str());
            if words_v.len() >= 2 {
                assert(views(words_v@)[1] == words_v@[1]@);
                warn_fnc_call(words_v[1].as_str(), vars, w);
            }
        }
        assert(views(w@) =~= wb + w_fmt_term(term@, vars@, curr@));
        let e1: Vec<String> = Vec::new();
        assert(views(e1@) =~= Seq::<Seq<char>>::empty());
        if fmt_term_exec(term, vars, curr, to_stdout, e1).is_err() {
            assert(views(w@) =~= w0 + w_fmt_terms(pv, 0, vars@, curr@, to_stdout));
            return;
        }
        assert(views(w@) + w_fmt_terms(pv, i + 1, vars@, curr@, to_stdout) =~= wb + w_fmt_terms(
            pv,
            i as int,
            vars@,
            curr@,
            to_stdout,
        ));
        i += 1;
    }
    assert(views(w@) + w_fmt_terms(pv, i as int, vars@, curr@, to_stdout) =~= views(w@));
}

/// Adds the warnings of a value that is a binary expression or a call written
/// in its first entry (exec form of `w_ret_value`, `w_out_value` and
/// `w_var_var`).
fn warn_value(v: &[String], kind: u8, vars: &GenTables, curr: &String, w: &mut Vec<String>)
    requires
        kind < 3,
        tables_wf(vars@),
    ensures
        views(final(w)@) == views(old(w)@) + (if kind == 0 {
            w_ret_value(views(v@), vars@, curr@)
        } else if kind == 1 {
            w_out_value(views(v@), vars@, curr@)
        } else {
            w_var_var(views(v@), vars@, curr@)
        }),
{
    let ghost vv = views(v@);
    assert(views(w@) =~= views(w@) + Seq::<Seq<char>>::empty());
    proof {
        reveal_strlit(" ");
    }
    if kind == 0 {
        let all_bin = has_bin_expr(v);
        if v.len() != 1 || all_bin || is_fnc_call(&v[0]) {
            if all_bin {
                warn_bin_steps(v, vars, curr, false, w);
            } else if is_fnc_call(&v[0]) {
                assert(vv[0] == v@[0]@);
                warn_named_call(&v[0], " ", vars, w);
            }
        }
    } else if kind == 1 {
        if v.len() > 1 {
            if has_bin_expr(v) {
                warn_bin_steps(v, vars, curr, false, w);
            }
        } else if v.len() == 1 {
            assert(vv[0] == v@[0]@);
            if is_bin_expr(&v[0]) {
                warn_bin_steps(v, vars, curr, false, w);
            } else if is_fnc_call(&v[0]) {
                warn_named_call(&v[0], " ", vars, w);
            }
        }
    } else if v.len() > 0 {
        assert(vv[0] == v@[0]@);
        if v.len() > 1 || is_bin_expr(&v[0]) {
            warn_bin_steps(v, vars, curr, false, w);
        } else if is_fnc_call(&v[0]) {
            warn_named_call(&v[0], " ", vars, w);
        }
    }
}

/// Adds the warnings of a statement (exec form of `w_step`).
fn stmt_warnings(st: &GenState, stmt: &Vec<String>, w: &mut Vec<String>)
    requires
        tables_wf(st@.tables),
    ensures
        views(final(w)@) == views(old(w)@) + w_step(st@, views(stmt@)),
{
    let ghost s = views(stmt@);
    assert(views(w@) =~= views(w@) + Seq::<Seq<char>>::empty());
    if stmt.len() == 0 {
        return;
    }
    let kind = stmt[0].as_str();
    assert(s[0] == kind@);
    let rest = tail_of(stmt, 1);
    if same(kind, "out") {
        warn_value(rest, 1, &st.vars, &st.curr, w);
    } else if same(kind, "vdec") {
        if stmt.len() >= 4 {
            warn_value(tail_of(stmt, 4), 2, &st.vars, &st.curr, w);
        }
    } else if same(kind, "prf") {
        warn_fmt_terms(rest, &st.vars, &st.curr, true, w);
    } else if same(kind, "pre") {
        warn_fmt_terms(rest, &st.vars, &st.curr, false, w);
    } else if same(kind, "vass") {
        if stmt.len() >= 2 {
            warn_value(tail_of(stmt, 2), 2, &st.vars, &st.curr, w);
        }
    } else if same(kind, "fcall") {
        if stmt.len() >= 2 {
            warn_fnc_call(stmt[1].as_str(), &st.vars, w);
        }
    } else if same(kind, "ret") {
        if st.in_func {
            warn_value(rest, 0, &st.vars, &st.curr, w);
        }
    }
}

// ---------------------------------------------------------------------------
// Laws: generation only appends
// ---------------------------------------------------------------------------

/// Whether `o` is `out` with lines added after it.
pub open spec fn extends(o: Seq<Seq<char>>, out: Seq<Seq<char>>) -> bool {
    out.len() <= o.len() && o.subrange(0, out.len() as int) == out
}

/// Whether a generated result, when it holds lines, extends `out`.
pub open spec fn appends(r: Result<Seq<Seq<char>>, GenErrorKindView>, out: Seq<Seq<char>>) -> bool {
    r matches Ok(o) ==> extends(o, out)
}

/// Extension is transitive.
pub proof fn lemma_extends_trans(a: Seq<Seq<char>>, b: Seq<Seq<char>>, c: Seq<Seq<char>>)
    requires
        extends(a, b),
        extends(b, c),
    ensures
        extends(a, c),
{
    assert(a.subrange(0, c.len() as int) =~= b.subrange(0, c.len() as int));
}

/// Lines followed by more lines extend the first ones.
pub proof fn lemma_extends_add(out: Seq<Seq<char>>, more: Seq<Seq<char>>)
    ensures
        extends(out + more, out),
{
    assert((out + more).subrange(0, out.len() as int) =~= out);
}

/// Pushing a value adds to the lines (law of `move_to_stack`).
pub proof fn law_move_to_stack_appends(reg: Seq<char>, val: Seq<char>, out: Seq<Seq<char>>)
    ensures
        extends(spec_move_to_stack(reg, val, out), out),
        spec_move_to_stack(reg, val, out).len() == out.len() + 2,
{
    lemma_extends_add(out, seq![mov_line(reg, val), push_line(reg)]);
    assert(spec_move_to_stack(reg, val, out) =~= out + seq![mov_line(reg, val), push_line(reg)]);
}

/// The argument pushes of a call add to the lines.
pub proof fn lemma_call_arg_lines_appends(
    parts: Seq<Seq<char>>,
    i: int,
    t: GenTablesView,
    curr: Seq<char>,
    in_print: bool,
    out: Seq<Seq<char>>,
)
    ensures
        appends(call_arg_lines(parts, i, t, curr, in_print, out), out),
    decreases parts.len() - i,
{
    assert(out.subrange(0, out.len() as int) =~= out);
    if 0 <= i < parts.len() {
        let arg = parts[i];
        if spec_is_int_lit(arg) {
            let o1 = spec_move_to_stack("rax"@, arg, out);
            law_move_to_stack_appends("rax"@, arg, out);
            lemma_call_arg_lines_appends(parts, i + 1, t, curr, in_print, o1);
            if let Ok(o) = call_arg_lines(parts, i, t, curr, in_print, out) {
                lemma_extends_trans(o, o1, out);
            }
        } else {
            match gen_scope_of(t, curr) {
                None => {},
                Some(sc) => if has_slot(sc, arg) {
                    let o = add_off(base_offset(sc, curr, arg), if in_print { 8 } else { 0 });
                    let m = (#[verifier::truncate] (i as i32)) as int * 8;
                    let o2 = if fits_i32(m) { add_off(o, m) } else { None };
                    if let Some(v) = o2 {
                        let o1 = spec_move_to_stack("rax"@, rsp_at(v), out);
                        law_move_to_stack_appends("rax"@, rsp_at(v), out);
                        lemma_call_arg_lines_appends(parts, i + 1, t, curr, in_print, o1);
                        if let Ok(o3) = call_arg_lines(parts, i, t, curr, in_print, out) {
                            lemma_extends_trans(o3, o1, out);
                        }
                    }
                },
            }
        }
    }
}

/// A call adds to the lines (law of `gen_fnc_call`).
pub proof fn law_fnc_call_appends(
    name: Seq<char>,
    args: Seq<Seq<char>>,
    t: GenTablesView,
    curr: Seq<char>,
    in_print: bool,
    out: Seq<Seq<char>>,
)
    ensures
        appends(spec_gen_fnc_call(name, args, t, curr, in_print, out), out),
{
    let parts = split_on(concat(args), ","@);
    lemma_call_arg_lines_appends(parts, 0, t, curr, in_print, out);
    if let Ok(o) = spec_gen_fnc_call(name, args, t, curr, in_print, out) {
        if let Some(f) = gen_scope_of(t, name) {
            if let Ok(o2) = call_arg_lines(parts, 0, t, curr, in_print, out) {
                let tail = seq!["    call "@ + name, "    add rsp, "@ + decimal((parts.len() * 8) as int)];
                lemma_extends_add(o2, tail);
                assert(o =~= o2 + tail);
                lemma_extends_trans(o, o2, out);
            }
        } else {
            assert(o == out);
            assert(out.subrange(0, out.len() as int) =~= out);
        }
    }
}

/// An operand that is a call adds to the lines.
pub proof fn lemma_call_operand_appends(
    v: Seq<char>,
    is_rhs: bool,
    t: GenTablesView,
    curr: Seq<char>,
    in_print: bool,
    out: Seq<Seq<char>>,
)
    ensures
        appends(call_operand(v, is_rhs, t, curr, in_print, out), out),
{
    let parts = split_on(v, "!"@);
    if parts.len() >= 2 {
        let r = spec_gen_fnc_call(parts[1], parts.subrange(2, parts.len() as int), t, curr, in_print, out);
        law_fnc_call_appends(parts[1], parts.subrange(2, parts.len() as int), t, curr, in_print, out);
        if let Ok(o2) = r {
            lemma_extends_add(o2, seq!["mov rbx, rax"@]);
            assert(o2.push("mov rbx, rax"@) =~= o2 + seq!["mov rbx, rax"@]);
            lemma_extends_trans(o2.push("mov rbx, rax"@), o2, out);
        }
    }
}

/// Loading an operand adds to the lines.
pub proof fn lemma_load_operand_appends(
    v: Seq<char>,
    reg: Seq<char>,
    is_rhs: bool,
    t: GenTablesView,
    curr: Seq<char>,
    in_print: bool,
    out: Seq<Seq<char>>,
)
    ensures
        appends(load_add_operand(v, reg, is_rhs, t, curr, in_print, out), out),
        appends(load_mul_operand(v, reg, is_rhs, t, curr, in_print, out), out),
{
    lemma_call_operand_appends(v, is_rhs, t, curr, in_print, out);
    lemma_extends_add(out, seq![mov_line(reg, v)]);
    lemma_extends_add(out, seq![pop_line(reg)]);
    lemma_extends_add(out, seq![mov_line(reg, mem_at(v))]);
    assert(out.push(mov_line(reg, v)) =~= out + seq![mov_line(reg, v)]);
    assert(out.push(pop_line(reg)) =~= out + seq![pop_line(reg)]);
    assert(out.push(mov_line(reg, mem_at(v))) =~= out + seq![mov_line(reg, mem_at(v))]);
    if let Some(sc) = gen_scope_of(t, curr) {
        if let Some(o) = add_off(base_offset(sc, curr, v), if in_print { 8 } else { 0 }) {
            law_move_to_stack_appends(reg, rsp_at(o), out);
            let m = spec_move_to_stack(reg, rsp_at(o), out);
            lemma_extends_add(m, seq![pop_line(reg)]);
            assert(m.push(pop_line(reg)) =~= m + seq![pop_line(reg)]);
            lemma_extends_trans(slot_load(reg, o, out), m, out);
        }
    }
}

/// An arithmetic step adds to the lines (law of `gen_add`, `gen_sub`, `gen_mul`
/// and `gen_div`).
pub proof fn law_arith_appends(
    op: Arith,
    lhs: Seq<char>,
    rhs: Seq<char>,
    t: GenTablesView,
    curr: Seq<char>,
    in_print: bool,
    out: Seq<Seq<char>>,
)
    ensures
        appends(spec_gen_arith(op, lhs, rhs, t, curr, in_print, out), out),
{
    lemma_load_operand_appends(rhs, "rbx"@, true, t, curr, in_print, out);
    let is_add = op is Add || op is Sub;
    let r = if is_add {
        load_add_operand(rhs, "rbx"@, true, t, curr, in_print, out)
    } else {
        load_mul_operand(rhs, "rbx"@, true, t, curr, in_print, out)
    };
    if let Ok(o1) = r {
        lemma_load_operand_appends(lhs, "rax"@, false, t, curr, in_print, o1);
        let l = if is_add {
            load_add_operand(lhs, "rax"@, false, t, curr, in_print, o1)
        } else {
            load_mul_operand(lhs, "rax"@, false, t, curr, in_print, o1)
        };
        if let Ok(o2) = l {
            lemma_extends_add(o2, arith_tail(op));
            lemma_extends_trans(o2, o1, out);
            lemma_extends_trans(o2 + arith_tail(op), o2, out);
        }
    }
}

/// The steps of a binary expression add to the lines (law of `gen_bin_expr`).
pub proof fn law_bin_steps_appends(
    e: Seq<Seq<char>>,
    i: int,
    t: GenTablesView,
    curr: Seq<char>,
    in_print: bool,
    out: Seq<Seq<char>>,
)
    ensures
        appends(bin_steps(e, i, t, curr, in_print, out), out),
    decreases e.len() - i,
{
    if 0 <= i < e.len() {
        let x = e[i];
        let parts = split_on(x, " "@);
        let op = if has_substring(x, "PLUS"@) {
            Some(Arith::Add)
        } else if has_substring(x, "TIMES"@) {
            Some(Arith::Mul)
        } else if has_substring(x, "MIN"@) {
            Some(Arith::Sub)
        } else if has_substring(x, "DIV"@) {
            Some(Arith::Div)
        } else {
            None
        };
        match op {
            None => {
                law_bin_steps_appends(e, i + 1, t, curr, in_print, out);
            },
            Some(op) => if parts.len() >= 3 {
                law_arith_appends(op, parts[0], parts[2], t, curr, in_print, out);
                if let Ok(o2) = spec_gen_arith(op, parts[0], parts[2], t, curr, in_print, out) {
                    law_bin_steps_appends(e, i + 1, t, curr, in_print, o2);
                    if let Ok(o3) = bin_steps(e, i + 1, t, curr, in_print, o2) {
                        lemma_extends_trans(o3, o2, out);
                    }
                }
            },
        }
    } else {
        assert(out.subrange(0, out.len() as int) =~= out);
    }
}

/// An unformatted print adds to the lines (law of `gen_print`).
pub proof fn law_print_appends(prt: Seq<char>, out: Seq<Seq<char>>)
    ensures
        appends(spec_gen_print(prt, out), out),
{
    let n = byte_len(prt);
    let st = pack_run(prt, n - 2, n);
    lemma_extends_add(out, push_values(seq!["0"@] + st.words) + seq![
        "    mov rax, 1"@,
        "    mov rdi, 1"@,
        "    mov rsi, rsp"@,
        "    mov rdx, "@ + decimal(n),
        "    syscall"@,
        "    add rsp, "@ + decimal(st.count * 8),
    ]);
    assert(out + push_values(seq!["0"@] + st.words) + seq![
        "    mov rax, 1"@,
        "    mov rdi, 1"@,
        "    mov rsi, rsp"@,
        "    mov rdx, "@ + decimal(n),
        "    syscall"@,
        "    add rsp, "@ + decimal(st.count * 8),
    ] =~= out + (push_values(seq!["0"@] + st.words) + seq![
        "    mov rax, 1"@,
        "    mov rdi, 1"@,
        "    mov rsi, rsp"@,
        "    mov rdx, "@ + decimal(n),
        "    syscall"@,
        "    add rsp, "@ + decimal(st.count * 8),
    ]));
}

/// One term of a formatted print adds to the lines.
pub proof fn lemma_fmt_term_appends(
    term: Seq<char>,
    t: GenTablesView,
    curr: Seq<char>,
    to_stdout: bool,
    out: Seq<Seq<char>>,
)
    ensures
        appends(fmt_term(term, t, curr, to_stdout, out), out),
{
    let fd = if to_stdout { "1"@ } else { "2"@ };
    let o0 = spec_move_to_stack("rax"@, "0"@, out);
    law_move_to_stack_appends("rax"@, "0"@, out);
    if let Ok(o) = fmt_term(term, t, curr, to_stdout, out) {
        if term.len() > 0 && term[0] == '"' {
            let n = byte_len(term);
            if n >= 3 {
                let m = spec_move_to_stack("rax"@, join(reversed(text_pieces(term, n)), "+"@), o0);
                law_move_to_stack_appends("rax"@, join(reversed(text_pieces(term, n)), "+"@), o0);
                let tail = seq![
                    "    mov rax, 1"@,
                    "    mov rdi, "@ + fd,
                    "    mov rsi, rsp"@,
                    "    mov rdx, "@ + decimal(n - 1),
                    "    syscall"@,
                    "    add rsp, 16"@,
                ];
                lemma_extends_add(m, tail);
                lemma_extends_trans(m, o0, out);
                lemma_extends_trans(m + tail, m, out);
            }
        } else if spec_gen_is_bin_expr(term) {
            law_bin_steps_appends(seq![term], 0, t, curr, true, o0);
            let o1 = bin_steps(seq![term], 0, t, curr, true, o0)->Ok_0;
            lemma_extends_trans(o1, o0, out);
            lemma_extends_add(o1, seq![pop_line("rax"@)] + char_tail(fd));
            assert(o1.push(pop_line("rax"@)) + char_tail(fd) =~= o1 + (seq![pop_line("rax"@)] + char_tail(
                fd,
            )));
            lemma_extends_trans(o, o1, out);
        } else if spec_gen_is_fnc_call(term) {
            let w = words(term);
            law_fnc_call_appends(w[1], w.subrange(2, w.len() as int), t, curr, true, o0);
            let o1 = spec_gen_fnc_call(w[1], w.subrange(2, w.len() as int), t, curr, true, o0)->Ok_0;
            lemma_extends_trans(o1, o0, out);
            lemma_extends_add(o1, char_tail(fd));
            lemma_extends_trans(o, o1, out);
        } else {
            let sc = gen_scope_of(t, curr).unwrap();
            let line = if has_slot(sc, term) {
                mov_line("rax"@, rsp_at(add_off(base_offset(sc, curr, term), 8).unwrap()))
            } else {
                mov_line("rax"@, mem_at(term))
            };
            lemma_extends_add(o0, seq![line] + char_tail(fd));
            assert(o0.push(line) + char_tail(fd) =~= o0 + (seq![line] + char_tail(fd)));
            lemma_extends_trans(o, o0, out);
        }
    }
}

/// The terms of a formatted print add to the lines.
pub proof fn lemma_fmt_terms_appends(
    prf: Seq<Seq<char>>,
    i: int,
    t: GenTablesView,
    curr: Seq<char>,
    to_stdout: bool,
    out: Seq<Seq<char>>,
)
    ensures
        appends(fmt_terms(prf, i, t, curr, to_stdout, out), out),
    decreases prf.len() - i,
{
    assert(out.subrange(0, out.len() as int) =~= out);
    if 0 <= i < prf.len() {
        lemma_fmt_term_appends(prf[i], t, curr, to_stdout, out);
        if let Ok(o) = fmt_term(prf[i], t, curr, to_stdout, out) {
            lemma_fmt_terms_appends(prf, i + 1, t, curr, to_stdout, o);
            if let Ok(o2) = fmt_terms(prf, i + 1, t, curr, to_stdout, o) {
                lemma_extends_trans(o2, o, out);
            }
        }
    }
}

/// A formatted print adds to the lines (law of `gen_print_f` and `gen_print_e`).
pub proof fn law_print_fmt_appends(
    prf: Seq<Seq<char>>,
    t: GenTablesView,
    curr: Seq<char>,
    to_stdout: bool,
    out: Seq<Seq<char>>,
)
    ensures
        appends(spec_gen_print_fmt(prf, t, curr, to_stdout, out), out),
{
    lemma_fmt_terms_appends(prf, 0, t, curr, to_stdout, out);
    if let Ok(o) = fmt_terms(prf, 0, t, curr, to_stdout, out) {
        let fd = if to_stdout { "1"@ } else { "2"@ };
        let a = spec_move_to_stack("rax"@, "0"@, o);
        let b = spec_move_to_stack("rax"@, "(10 << 8) + ('' << 0)"@, a);
        law_move_to_stack_appends("rax"@, "0"@, o);
        law_move_to_stack_appends("rax"@, "(10 << 8) + ('' << 0)"@, a);
        let tail = seq![
            "    mov rax, 1"@,
            "    mov rdi, "@ + fd,
            "    mov rsi, rsp"@,
            "    mov rdx, 2"@,
            "    syscall"@,
            "    add rsp, 16"@,
        ];
        lemma_extends_add(b, tail);
        lemma_extends_trans(b, a, o);
        lemma_extends_trans(b + tail, b, o);
        lemma_extends_trans(b + tail, o, out);
    }
}

/// A statement call adds to the lines.
pub proof fn lemma_stmt_call_appends(
    v: Seq<char>,
    skip: int,
    t: GenTablesView,
    curr: Seq<char>,
    out: Seq<Seq<char>>,
)
    ensures
        appends(stmt_call(v, skip, t, curr, out), out),
{
    let parts = split_on(v, " "@);
    if parts.len() >= 2 {
        law_fnc_call_appends(parts[1], parts.subrange(skip, parts.len() as int), t, curr, false, out);
    }
}

/// Putting a returned value in `rax` adds to the lines.
pub proof fn lemma_ret_value_appends(rv: Seq<Seq<char>>, t: GenTablesView, curr: Seq<char>, out: Seq<Seq<char>>)
    ensures
        appends(ret_value(rv, t, curr, out), out),
{
    assert(out.subrange(0, out.len() as int) =~= out);
    law_bin_steps_appends(rv, 0, t, curr, false, out);
    if let Ok(bo) = bin_steps(rv, 0, t, curr, false, out) {
        lemma_extends_add(bo, seq![pop_line("rax"@)]);
        assert(bo.push(pop_line("rax"@)) =~= bo + seq![pop_line("rax"@)]);
        lemma_extends_trans(bo.push(pop_line("rax"@)), bo, out);
    }
    if rv.len() > 0 {
        lemma_stmt_call_appends(rv[0], 2, t, curr, out);
        let v = rv[0];
        lemma_extends_add(out, seq![mov_line("rax"@, v)]);
        assert(out.push(mov_line("rax"@, v)) =~= out + seq![mov_line("rax"@, v)]);
        lemma_extends_add(out, seq![mov_line("rax"@, mem_at(v))]);
        assert(out.push(mov_line("rax"@, mem_at(v))) =~= out + seq![mov_line("rax"@, mem_at(v))]);
        if let Some(sc) = gen_scope_of(t, curr) {
            if let Ok(of) = local_offset(sc, curr, v) {
                lemma_extends_add(out, seq![mov_line("rax"@, rsp_at(of))]);
                assert(out.push(mov_line("rax"@, rsp_at(of))) =~= out + seq![mov_line("rax"@, rsp_at(of))]);
            }
        }
    }
}

/// A `ret` adds to the lines (law of `gen_ret`).
pub proof fn law_ret_appends(rv: Seq<Seq<char>>, t: GenTablesView, curr: Seq<char>, out: Seq<Seq<char>>)
    ensures
        appends(spec_gen_ret(rv, t, curr, out), out),
{
    lemma_ret_value_appends(rv, t, curr, out);
    if let Ok(o) = spec_gen_ret(rv, t, curr, out) {
        let b = ret_value(rv, t, curr, out)->Ok_0;
        let sc = gen_scope_of(t, curr).unwrap();
        let tail = seq!["    add rsp, "@ + decimal((sc.vars_names.len() * 8) as int), "    ret"@];
        lemma_extends_add(b, tail);
        assert(o =~= b + tail);
        lemma_extends_trans(o, b, out);
    }
}

/// Pushing an exit value adds to the lines.
pub proof fn lemma_out_value_appends(ov: Seq<Seq<char>>, t: GenTablesView, curr: Seq<char>, out: Seq<Seq<char>>)
    ensures
        appends(out_value(ov, t, curr, out), out),
{
    law_bin_steps_appends(ov, 0, t, curr, false, out);
    if ov.len() > 0 {
        let v = ov[0];
        lemma_stmt_call_appends(v, 1, t, curr, out);
        law_move_to_stack_appends("rax"@, v, out);
        lemma_extends_add(out, seq![mov_line("rax"@, mem_at(v))]);
        assert(out.push(mov_line("rax"@, mem_at(v))) =~= out + seq![mov_line("rax"@, mem_at(v))]);
        if let Ok(co) = stmt_call(v, 1, t, curr, out) {
            lemma_extends_add(co, seq![push_line("rax"@)]);
            assert(co.push(push_line("rax"@)) =~= co + seq![push_line("rax"@)]);
            lemma_extends_trans(co.push(push_line("rax"@)), co, out);
        }
        if let Some(sc) = gen_scope_of(t, curr) {
            if let Ok(of) = local_offset(sc, curr, v) {
                law_move_to_stack_appends("rax"@, rsp_at(of), out);
            }
        }
    }
}

/// An `out` adds to the lines (law of `gen_out`).
pub proof fn law_out_appends(ov: Seq<Seq<char>>, t: GenTablesView, curr: Seq<char>, out: Seq<Seq<char>>)
    ensures
        appends(spec_gen_out(ov, t, curr, out), out),
{
    lemma_out_value_appends(ov, t, curr, out);
    if let Ok(b) = out_value(ov, t, curr, out) {
        let tail = seq!["    pop rdi"@, "    mov rax, 60"@, "    syscall"@];
        lemma_extends_add(b, tail);
        lemma_extends_trans(b + tail, b, out);
    }
}

/// An assigned value adds to the lines (law of `gen_var_var`).
pub proof fn law_var_var_appends(
    vv: Seq<Seq<char>>,
    t: GenTablesView,
    curr: Seq<char>,
    in_print: bool,
    out: Seq<Seq<char>>,
)
    ensures
        appends(spec_gen_var_var(vv, t, curr, in_print, out), out),
{
    law_bin_steps_appends(vv, 0, t, curr, in_print, out);
    if vv.len() > 0 {
        lemma_stmt_call_appends(vv[0], 2, t, curr, out);
        law_move_to_stack_appends("rax"@, vv[0], out);
        if let Ok(co) = stmt_call(vv[0], 2, t, curr, out) {
            lemma_extends_add(co, seq![push_line("rax"@)]);
            assert(co.push(push_line("rax"@)) =~= co + seq![push_line("rax"@)]);
            lemma_extends_trans(co.push(push_line("rax"@)), co, out);
        }
        if let Some(sc) = gen_scope_of(t, curr) {
            if let Ok(of) = local_offset(sc, curr, vv[0]) {
                law_move_to_stack_appends("rax"@, rsp_at(of), out);
            }
        }
    }
}

/// A constant adds to the data lines (law of `gen_constant`).
pub proof fn law_constant_appends(name: Seq<char>, ty: Seq<char>, value: Seq<Seq<char>>, out: Seq<Seq<char>>)
    ensures
        appends(spec_gen_constant(name, ty, value, out), out),
{
    assert(out.subrange(0, out.len() as int) =~= out);
    lemma_extends_add(out, seq![name + " dq "@ + concat(value)]);
    assert(out.push(name + " dq "@ + concat(value)) =~= out + seq![name + " dq "@ + concat(value)]);
    lemma_extends_add(out, seq![name + " db "@ + concat(value) + ", 0"@]);
    assert(out.push(name + " db "@ + concat(value) + ", 0"@) =~= out + seq![
        name + " db "@ + concat(value) + ", 0"@,
    ]);
}

/// What a statement keeps: the data lines, function bodies and entry code
/// written so far stay as they are, with lines only added after them, and the
/// stack height does not go down.
pub open spec fn keeps(st: GenStateView, s2: GenStateView) -> bool {
    &&& extends(s2.data, st.data)
    &&& extends(s2.funcs, st.funcs)
    &&& extends(s2.start, st.start)
    &&& st.height <= s2.height
}

/// Every state keeps itself.
pub proof fn lemma_keeps_refl(st: GenStateView)
    ensures
        keeps(st, st),
{
    assert(st.data.subrange(0, st.data.len() as int) =~= st.data);
    assert(st.funcs.subrange(0, st.funcs.len() as int) =~= st.funcs);
    assert(st.start.subrange(0, st.start.len() as int) =~= st.start);
}

/// Keeping is transitive.
pub proof fn lemma_keeps_trans(a: GenStateView, b: GenStateView, c: GenStateView)
    requires
        keeps(a, b),
        keeps(b, c),
    ensures
        keeps(a, c),
{
    lemma_extends_trans(c.data, b.data, a.data);
    lemma_extends_trans(c.funcs, b.funcs, a.funcs);
    lemma_extends_trans(c.start, b.start, a.start);
}

/// Lines added to the target keep the state.
pub proof fn lemma_with_target_keeps(st: GenStateView, o: Seq<Seq<char>>)
    requires
        extends(o, target(st)),
    ensures
        keeps(st, with_target(st, o)),
{
    lemma_keeps_refl(st);
}

/// Declaring arguments only raises the height.
pub proof fn lemma_fdec_args_height(parts: Seq<Seq<char>>, i: int, sc: GenScopeView, h: i32)
    ensures
        fdec_args(parts, i, sc, h) matches Ok(r) ==> h <= r.1,
    decreases parts.len() - i,
{
    if 0 <= i < parts.len() {
        if parts[i] == Seq::<char>::empty() {
            lemma_fdec_args_height(parts, i + 1, sc, h);
        } else {
            let p = split_on(parts[i], "COL"@);
            if p.len() >= 2 {
                if let Some(lists) = push_typed(sc.args_int, sc.args_names, p[0], p[1]) {
                    if h != i32::MAX {
                        lemma_fdec_args_height(
                            parts,
                            i + 1,
                            set_slot(GenScopeView { args_int: lists.0, args_names: lists.1, ..sc }, p[1], h),
                            (h + 1) as i32,
                        );
                    }
                }
            }
        }
    }
}

/// Giving a call's arguments their slots only raises the height.
pub proof fn lemma_call_slots_height(names: Seq<Seq<char>>, i: int, sc: GenScopeView, h: i32)
    ensures
        call_slots(names, i, sc, h) matches Ok(r) ==> h <= r.1,
    decreases names.len() - i,
{
    if 0 <= i < names.len() && h != i32::MAX {
        lemma_call_slots_height(names, i + 1, set_slot(sc, names[i], h), (h + 1) as i32);
    }
}

/// A statement keeps the lines written before it and does not lower the stack
/// height.
pub proof fn law_statement_keeps(st: GenStateView, s: Seq<Seq<char>>)
    ensures
        gen_step(st, s) matches Ok(s2) ==> keeps(st, s2),
{
    lemma_keeps_refl(st);
    if s.len() > 0 {
        let rest = s.subrange(1, s.len() as int);
        let tgt = target(st);
        law_out_appends(rest, st.tables, st.curr, tgt);
        law_print_fmt_appends(rest, st.tables, st.curr, true, tgt);
        law_print_fmt_appends(rest, st.tables, st.curr, false, tgt);
        law_ret_appends(rest, st.tables, st.curr, tgt);
        if s.len() >= 2 {
            law_print_appends(s[1], tgt);
            law_fnc_call_appends(s[1], s.subrange(2, s.len() as int), st.tables, st.curr, false, tgt);
            law_var_var_appends(s.subrange(2, s.len() as int), st.tables, st.curr, false, tgt);
            lemma_fdec_args_height(
                split_on(concat(s.subrange(2, s.len() as int)), ","@),
                0,
                new_gen_scope(s[1]),
                st.height,
            );
            lemma_extends_add(st.funcs, seq![s[1] + ":"@]);
            assert(st.funcs.push(s[1] + ":"@) =~= st.funcs + seq![s[1] + ":"@]);
            let k = gen_scope_index_from(st.tables.scopes, s[1], 0);
            if k >= 0 {
                lemma_call_slots_height(st.tables.scopes[k].args_names, 0, st.tables.scopes[k], st.height);
            }
        }
        if s.len() >= 4 {
            law_var_var_appends(s.subrange(4, s.len() as int), st.tables, st.curr, false, tgt);
            law_constant_appends(s[3], s[2], s.subrange(4, s.len() as int), st.data);
        }
        if let Ok(o) = spec_gen_out(rest, st.tables, st.curr, tgt) {
            lemma_with_target_keeps(st, o);
        }
        if let Ok(o) = spec_gen_print_fmt(rest, st.tables, st.curr, true, tgt) {
            lemma_with_target_keeps(st, o);
        }
        if let Ok(o) = spec_gen_print_fmt(rest, st.tables, st.curr, false, tgt) {
            lemma_with_target_keeps(st, o);
        }
        if let Ok(o) = spec_gen_ret(rest, st.tables, st.curr, tgt) {
            lemma_with_target_keeps(st, o);
        }
        if s.len() >= 2 {
            if let Ok(o) = spec_gen_print(s[1], tgt) {
                lemma_with_target_keeps(st, o);
            }
            if let Ok(o) = spec_gen_fnc_call(s[1], s.subrange(2, s.len() as int), st.tables, st.curr, false, tgt) {
                lemma_with_target_keeps(st, o);
            }
            if let Ok(o) = spec_gen_var_var(s.subrange(2, s.len() as int), st.tables, st.curr, false, tgt) {
                lemma_with_target_keeps(st, o);
            }
        }
        if s.len() >= 4 {
            if let Ok(o) = spec_gen_var_var(s.subrange(4, s.len() as int), st.tables, st.curr, false, tgt) {
                lemma_with_target_keeps(st, o);
                let st1 = with_target(st, o);
                if let Ok(d) = spec_gen_constant(s[3], s[2], s.subrange(4, s.len() as int), st1.data) {
                    assert(st1.data == st.data);
                }
            }
        }
    }
}

/// A run of statements keeps the lines written before it and does not lower
/// the stack height.
pub proof fn law_run_keeps(stmts: Seq<Seq<Seq<char>>>, i: int, st: GenStateView)
    ensures
        gen_run(stmts, i, st) matches Ok(s2) ==> keeps(st, s2),
    decreases stmts.len() - i,
{
    lemma_keeps_refl(st);
    if 0 <= i < stmts.len() {
        law_statement_keeps(st, stmts[i]);
        if let Ok(s1) = gen_step(st, stmts[i]) {
            law_run_keeps(stmts, i + 1, s1);
            if let Ok(s2) = gen_run(stmts, i + 1, s1) {
                lemma_keeps_trans(st, s1, s2);
            }
        }
    }
}

// ---------------------------------------------------------------------------
// Laws: stack balance
// ---------------------------------------------------------------------------

/// Whether a line pushes a word on the stack.
pub open spec fn is_push(l: Seq<char>) -> bool {
    l.len() >= 9 && l.subrange(0, 9) == "    push "@
}

/// The number of lines that push a word.
pub open spec fn pushes(ls: Seq<Seq<char>>) -> nat
    decreases ls.len(),
{
    if ls.len() == 0 {
        0
    } else {
        pushes(ls.drop_last()) + if is_push(ls.last()) {
            1nat
        } else {
            0nat
        }
    }
}

/// The line that releases `n` words: `    add rsp, 8n`.
pub open spec fn release_line(n: int) -> Seq<char> {
    "    add rsp, "@ + decimal(8 * n)
}

/// Pushes of lines put together add up.
pub proof fn lemma_pushes_add(a: Seq<Seq<char>>, b: Seq<Seq<char>>)
    ensures
        pushes(a + b) == pushes(a) + pushes(b),
    decreases b.len(),
{
    if b.len() > 0 {
        assert((a + b).drop_last() =~= a + b.drop_last());
        lemma_pushes_add(a, b.drop_last());
    } else {
        assert(a + b =~= a);
    }
}

/// A line that starts with `    mov ` does not push.
pub proof fn lemma_mov_not_push(l: Seq<char>)
    requires
        l.len() >= 8,
        l.subrange(0, 8) == "    mov "@,
    ensures
        !is_push(l),
{
    reveal_strlit("    mov ");
    reveal_strlit("    push ");
    if is_push(l) {
        assert(l.subrange(0, 9)[4] == l.subrange(0, 8)[4]);
    }
}

/// `mov` and `push` lines are what they look like.
pub proof fn lemma_mov_push_lines(reg: Seq<char>, val: Seq<char>)
    ensures
        !is_push(mov_line(reg, val)),
        is_push(push_line(reg)),
{
    reveal_strlit("    mov ");
    reveal_strlit("    push ");
    assert(mov_line(reg, val).subrange(0, 8) =~= "    mov "@);
    lemma_mov_not_push(mov_line(reg, val));
    assert(push_line(reg).subrange(0, 9) =~= "    push "@);
}

/// Pushes after one more line.
pub proof fn lemma_pushes_push(ls: Seq<Seq<char>>, l: Seq<char>)
    ensures
        pushes(ls.push(l)) == pushes(ls) + if is_push(l) {
            1nat
        } else {
            0nat
        },
{
    assert(ls.push(l).drop_last() =~= ls);
}

/// Lines none of which pushes push nothing.
pub proof fn lemma_pushes_none(ls: Seq<Seq<char>>)
    requires
        forall|k: int| 0 <= k < ls.len() ==> !is_push(#[trigger] ls[k]),
    ensures
        pushes(ls) == 0,
    decreases ls.len(),
{
    if ls.len() > 0 {
        lemma_pushes_none(ls.drop_last());
    }
}

/// Pushing a value pushes one word.
pub proof fn lemma_move_to_stack_pushes(reg: Seq<char>, val: Seq<char>, out: Seq<Seq<char>>)
    ensures
        pushes(spec_move_to_stack(reg, val, out)) == pushes(out) + 1,
{
    lemma_mov_push_lines(reg, val);
    lemma_pushes_push(out, mov_line(reg, val));
    lemma_pushes_push(out.push(mov_line(reg, val)), push_line(reg));
}

/// `push_values` pushes one word per value.
pub proof fn lemma_push_values_pushes(v: Seq<Seq<char>>)
    ensures
        pushes(push_values(v)) == v.len(),
    decreases v.len(),
{
    if v.len() > 0 {
        lemma_push_values_pushes(v.drop_last());
        let a = push_values(v.drop_last());
        lemma_move_to_stack_pushes("rax"@, v.last(), a);
        assert(push_values(v) =~= spec_move_to_stack("rax"@, v.last(), a));
    }
}

/// The packer pushes as many words as it counts: the words so far and the zero
/// word.
pub proof fn lemma_pack_count(t: Seq<char>, m: int, n: int)
    ensures
        pack_run(t, m, n).words.len() + 1 == pack_run(t, m, n).count,
    decreases m,
{
    if m >= 1 {
        lemma_pack_count(t, m - 1, n);
    }
}

/// A line whose fifth character is not `p` does not push.
pub proof fn lemma_not_push(l: Seq<char>)
    requires
        l.len() > 4,
        l[4] != 'p',
    ensures
        !is_push(l),
{
    reveal_strlit("    push ");
    if is_push(l) {
        assert(l.subrange(0, 9)[4] == l[4]);
    }
}

/// The fixed closing lines of an unformatted print push nothing.
pub proof fn lemma_print_tail_pushes(n: int, c: int)
    ensures
        pushes(
            seq![
                "    mov rax, 1"@,
                "    mov rdi, 1"@,
                "    mov rsi, rsp"@,
                "    mov rdx, "@ + decimal(n),
                "    syscall"@,
                release_line(c),
            ],
        ) == 0,
{
    reveal_strlit("    mov rax, 1");
    reveal_strlit("    mov rdi, 1");
    reveal_strlit("    mov rsi, rsp");
    reveal_strlit("    mov rdx, ");
    reveal_strlit("    syscall");
    reveal_strlit("    add rsp, ");
    let l = seq![
        "    mov rax, 1"@,
        "    mov rdi, 1"@,
        "    mov rsi, rsp"@,
        "    mov rdx, "@ + decimal(n),
        "    syscall"@,
        release_line(c),
    ];
    assert forall|k: int| 0 <= k < l.len() implies !is_push(#[trigger] l[k]) by {
        lemma_not_push(l[k]);
    }
    lemma_pushes_none(l);
}

/// An unformatted print releases exactly the words it pushes: its last line
/// is `add rsp` by eight bytes per pushed word.
pub proof fn law_print_stack_balance(prt: Seq<char>, out: Seq<Seq<char>>)
    ensures
        spec_gen_print(prt, out) matches Ok(o) ==> out.len() < o.len() && o.last() == release_line(
            pushes(o.subrange(out.len() as int, o.len() as int)) as int,
        ),
{
    if let Ok(o) = spec_gen_print(prt, out) {
        let n = byte_len(prt);
        let st = pack_run(prt, n - 2, n);
        let v = seq!["0"@] + st.words;
        let tail = seq![
            "    mov rax, 1"@,
            "    mov rdi, 1"@,
            "    mov rsi, rsp"@,
            "    mov rdx, "@ + decimal(n),
            "    syscall"@,
            release_line(st.count),
        ];
        let added = push_values(v) + tail;
        assert(st.count * 8 == 8 * st.count);
        assert(o =~= out + added);
        assert(o.subrange(out.len() as int, o.len() as int) =~= added);
        lemma_pack_count(prt, n - 2, n);
        lemma_push_values_pushes(v);
        lemma_print_tail_pushes(n, st.count);
        lemma_pushes_add(push_values(v), tail);
    }
}

/// The argument pushes of a call push one word per argument.
pub proof fn lemma_call_arg_lines_pushes(
    parts: Seq<Seq<char>>,
    i: int,
    t: GenTablesView,
    curr: Seq<char>,
    in_print: bool,
    out: Seq<Seq<char>>,
)
    requires
        0 <= i <= parts.len(),
    ensures
        call_arg_lines(parts, i, t, curr, in_print, out) matches Ok(o) ==> pushes(o) == pushes(out)
            + parts.len() - i,
    decreases parts.len() - i,
{
    if i < parts.len() {
        let arg = parts[i];
        if spec_is_int_lit(arg) {
            lemma_move_to_stack_pushes("rax"@, arg, out);
            lemma_call_arg_lines_pushes(parts, i + 1, t, curr, in_print, spec_move_to_stack("rax"@, arg, out));
        } else {
            match gen_scope_of(t, curr) {
                None => {},
                Some(sc) => if has_slot(sc, arg) {
                    let o = add_off(base_offset(sc, curr, arg), if in_print { 8 } else { 0 });
                    let m = (#[verifier::truncate] (i as i32)) as int * 8;
                    let o2 = if fits_i32(m) { add_off(o, m) } else { None };
                    if let Some(v) = o2 {
                        lemma_move_to_stack_pushes("rax"@, rsp_at(v), out);
                        lemma_call_arg_lines_pushes(
                            parts,
                            i + 1,
                            t,
                            curr,
                            in_print,
                            spec_move_to_stack("rax"@, rsp_at(v), out),
                        );
                    }
                },
            }
        }
    }
}

/// A call of a known function pushes one word per argument and releases
/// exactly those words after the call: its last line is `add rsp` by eight
/// bytes per pushed word.
pub proof fn law_call_stack_balance(
    name: Seq<char>,
    args: Seq<Seq<char>>,
    t: GenTablesView,
    curr: Seq<char>,
    in_print: bool,
    out: Seq<Seq<char>>,
)
    ensures
        gen_scope_of(t, name) is Some ==> (spec_gen_fnc_call(name, args, t, curr, in_print, out) matches Ok(
            o,
        ) ==> {
            let added = o.subrange(out.len() as int, o.len() as int);
            &&& out.len() < o.len()
            &&& pushes(added) == split_on(concat(args), ","@).len()
            &&& o.last() == release_line(pushes(added) as int)
        }),
{
    if let Ok(o) = spec_gen_fnc_call(name, args, t, curr, in_print, out) {
        if let Some(f) = gen_scope_of(t, name) {
            let parts = split_on(concat(args), ","@);
            let o2 = call_arg_lines(parts, 0, t, curr, in_print, out)->Ok_0;
            lemma_call_arg_lines_pushes(parts, 0, t, curr, in_print, out);
            lemma_call_arg_lines_appends(parts, 0, t, curr, in_print, out);
            let tail = seq!["    call "@ + name, release_line(parts.len() as int)];
            assert((parts.len() * 8) as int == 8 * parts.len());
            assert(o =~= o2 + tail);
            reveal_strlit("    call ");
            reveal_strlit("    add rsp, ");
            assert forall|k: int| 0 <= k < tail.len() implies !is_push(#[trigger] tail[k]) by {
                lemma_not_push(tail[k]);
            }
            lemma_pushes_none(tail);
            let mid = o2.subrange(out.len() as int, o2.len() as int);
            assert(o2 =~= out + mid);
            lemma_pushes_add(out, mid);
            lemma_pushes_add(mid, tail);
            assert(o.subrange(out.len() as int, o.len() as int) =~= mid + tail);
        }
    }
}

// ---------------------------------------------------------------------------
// Laws: statement kinds
// ---------------------------------------------------------------------------

/// Whether an entry names a statement kind the generator handles.
pub open spec fn known_kind(k: Seq<char>) -> bool {
    k == "out"@ || k == "vdec"@ || k == "prt"@ || k == "prf"@ || k == "pre"@ || k == "vass"@ || k
        == "fdec"@ || k == "endfunc"@ || k == "fcall"@ || k == "ret"@
}

/// Whether every statement has a first entry that names a known kind.
pub open spec fn all_known(stmts: Seq<Seq<Seq<char>>>) -> bool {
    forall|k: int| 0 <= k < stmts.len() ==> #[trigger] stmts[k].len() > 0 && known_kind(stmts[k][0])
}

/// Whether a result is other than the unknown-statement error.
pub open spec fn not_unknown<T>(r: Result<T, GenErrorKindView>) -> bool {
    !(r matches Err(x) && x == GenErrorKindView::UnknownStatement)
}

/// Pushing a call's arguments never reports an unknown statement.
pub proof fn lemma_call_arg_lines_known(
    parts: Seq<Seq<char>>,
    i: int,
    t: GenTablesView,
    curr: Seq<char>,
    in_print: bool,
    out: Seq<Seq<char>>,
)
    ensures
        not_unknown(call_arg_lines(parts, i, t, curr, in_print, out)),
    decreases parts.len() - i,
{
    if 0 <= i < parts.len() {
        let arg = parts[i];
        lemma_call_arg_lines_known(parts, i + 1, t, curr, in_print, spec_move_to_stack("rax"@, arg, out));
        if let Some(sc) = gen_scope_of(t, curr) {
            let o = add_off(base_offset(sc, curr, arg), if in_print { 8 } else { 0 });
            let m = (#[verifier::truncate] (i as i32)) as int * 8;
            let o2 = if fits_i32(m) { add_off(o, m) } else { None };
            if let Some(v) = o2 {
                lemma_call_arg_lines_known(
                    parts,
                    i + 1,
                    t,
                    curr,
                    in_print,
                    spec_move_to_stack("rax"@, rsp_at(v), out),
                );
            }
        }
    }
}

/// A call never reports an unknown statement.
pub proof fn lemma_fnc_call_known(
    name: Seq<char>,
    args: Seq<Seq<char>>,
    t: GenTablesView,
    curr: Seq<char>,
    in_print: bool,
    out: Seq<Seq<char>>,
)
    ensures
        not_unknown(spec_gen_fnc_call(name, args, t, curr, in_print, out)),
{
    lemma_call_arg_lines_known(split_on(concat(args), ","@), 0, t, curr, in_print, out);
}

/// An arithmetic step never reports an unknown statement.
pub proof fn lemma_arith_known(
    op: Arith,
    lhs: Seq<char>,
    rhs: Seq<char>,
    t: GenTablesView,
    curr: Seq<char>,
    in_print: bool,
    out: Seq<Seq<char>>,
)
    ensures
        not_unknown(spec_gen_arith(op, lhs, rhs, t, curr, in_print, out)),
{
    let pr = split_on(rhs, "!"@);
    if pr.len() >= 2 {
        lemma_fnc_call_known(pr[1], pr.subrange(2, pr.len() as int), t, curr, in_print, out);
    }
    let r = if op is Add || op is Sub {
        load_add_operand(rhs, "rbx"@, true, t, curr, in_print, out)
    } else {
        load_mul_operand(rhs, "rbx"@, true, t, curr, in_print, out)
    };
    if let Ok(o1) = r {
        let pl = split_on(lhs, "!"@);
        if pl.len() >= 2 {
            lemma_fnc_call_known(pl[1], pl.subrange(2, pl.len() as int), t, curr, in_print, o1);
        }
    }
}

/// The steps of a binary expression never report an unknown statement.
pub proof fn lemma_bin_steps_known(
    e: Seq<Seq<char>>,
    i: int,
    t: GenTablesView,
    curr: Seq<char>,
    in_print: bool,
    out: Seq<Seq<char>>,
)
    ensures
        not_unknown(bin_steps(e, i, t, curr, in_print, out)),
    decreases e.len() - i,
{
    if 0 <= i < e.len() {
        let x = e[i];
        let parts = split_on(x, " "@);
        lemma_bin_steps_known(e, i + 1, t, curr, in_print, out);
        if parts.len() >= 3 {
            let ops = seq![Arith::Add, Arith::Mul, Arith::Sub, Arith::Div];
            assert forall|k: int| 0 <= k < 4 implies not_unknown(
                #[trigger] spec_gen_arith(ops[k], parts[0], parts[2], t, curr, in_print, out),
            ) by {
                lemma_arith_known(ops[k], parts[0], parts[2], t, curr, in_print, out);
            }
            assert(ops[0] == Arith::Add && ops[1] == Arith::Mul && ops[2] == Arith::Sub && ops[3]
                == Arith::Div);
            let op = if has_substring(x, "PLUS"@) {
                Some(Arith::Add)
            } else if has_substring(x, "TIMES"@) {
                Some(Arith::Mul)
            } else if has_substring(x, "MIN"@) {
                Some(Arith::Sub)
            } else if has_substring(x, "DIV"@) {
                Some(Arith::Div)
            } else {
                None
            };
            if let Some(op) = op {
                if let Ok(o2) = spec_gen_arith(op, parts[0], parts[2], t, curr, in_print, out) {
                    lemma_bin_steps_known(e, i + 1, t, curr, in_print, o2);
                }
            }
        }
    }
}

/// The terms of a formatted print never report an unknown statement.
pub proof fn lemma_fmt_terms_known(
    prf: Seq<Seq<char>>,
    i: int,
    t: GenTablesView,
    curr: Seq<char>,
    to_stdout: bool,
    out: Seq<Seq<char>>,
)
    ensures
        not_unknown(fmt_terms(prf, i, t, curr, to_stdout, out)),
    decreases prf.len() - i,
{
    if 0 <= i < prf.len() {
        let term = prf[i];
        let o0 = spec_move_to_stack("rax"@, "0"@, out);
        lemma_bin_steps_known(seq![term], 0, t, curr, true, o0);
        let w = words(term);
        if w.len() >= 2 {
            lemma_fnc_call_known(w[1], w.subrange(2, w.len() as int), t, curr, true, o0);
        }
        if let Ok(o) = fmt_term(term, t, curr, to_stdout, out) {
            lemma_fmt_terms_known(prf, i + 1, t, curr, to_stdout, o);
        }
    }
}

/// Recording a declaration's arguments never reports an unknown statement.
pub proof fn lemma_fdec_args_known(parts: Seq<Seq<char>>, i: int, sc: GenScopeView, h: i32)
    ensures
        not_unknown(fdec_args(parts, i, sc, h)),
    decreases parts.len() - i,
{
    if 0 <= i < parts.len() {
        if parts[i] == Seq::<char>::empty() {
            lemma_fdec_args_known(parts, i + 1, sc, h);
        } else {
            let p = split_on(parts[i], "COL"@);
            if p.len() >= 2 {
                if let Some(lists) = push_typed(sc.args_int, sc.args_names, p[0], p[1]) {
                    if h != i32::MAX {
                        lemma_fdec_args_known(
                            parts,
                            i + 1,
                            set_slot(GenScopeView { args_int: lists.0, args_names: lists.1, ..sc }, p[1], h),
                            (h + 1) as i32,
                        );
                    }
                }
            }
        }
    }
}

/// Giving a call's arguments slots never reports an unknown statement.
pub proof fn lemma_call_slots_known(names: Seq<Seq<char>>, i: int, sc: GenScopeView, h: i32)
    ensures
        not_unknown(call_slots(names, i, sc, h)),
    decreases names.len() - i,
{
    if 0 <= i < names.len() && h != i32::MAX {
        lemma_call_slots_known(names, i + 1, set_slot(sc, names[i], h), (h + 1) as i32);
    }
}

/// A statement of a known kind is never refused as unknown.
pub proof fn law_known_statement(st: GenStateView, s: Seq<Seq<char>>)
    requires
        s.len() > 0,
        known_kind(s[0]),
    ensures
        not_unknown(gen_step(st, s)),
{
    let rest = s.subrange(1, s.len() as int);
    let tgt = target(st);
    lemma_bin_steps_known(rest, 0, st.tables, st.curr, false, tgt);
    lemma_fmt_terms_known(rest, 0, st.tables, st.curr, true, tgt);
    lemma_fmt_terms_known(rest, 0, st.tables, st.curr, false, tgt);
    if rest.len() > 0 {
        let p1 = split_on(rest[0], " "@);
        if p1.len() >= 2 {
            lemma_fnc_call_known(p1[1], p1.subrange(1, p1.len() as int), st.tables, st.curr, false, tgt);
            lemma_fnc_call_known(p1[1], p1.subrange(2, p1.len() as int), st.tables, st.curr, false, tgt);
        }
    }
    if s.len() >= 2 {
        let v2 = s.subrange(2, s.len() as int);
        lemma_bin_steps_known(v2, 0, st.tables, st.curr, false, tgt);
        lemma_fnc_call_known(s[1], v2, st.tables, st.curr, false, tgt);
        if v2.len() > 0 {
            let p2 = split_on(v2[0], " "@);
            if p2.len() >= 2 {
                lemma_fnc_call_known(p2[1], p2.subrange(2, p2.len() as int), st.tables, st.curr, false, tgt);
            }
        }
        lemma_fdec_args_known(split_on(concat(v2), ","@), 0, new_gen_scope(s[1]), st.height);
        let k = gen_scope_index_from(st.tables.scopes, s[1], 0);
        if k >= 0 {
            lemma_call_slots_known(st.tables.scopes[k].args_names, 0, st.tables.scopes[k], st.height);
        }
    }
    if s.len() >= 4 {
        let v4 = s.subrange(4, s.len() as int);
        lemma_bin_steps_known(v4, 0, st.tables, st.curr, false, tgt);
        if v4.len() > 0 {
            let p4 = split_on(v4[0], " "@);
            if p4.len() >= 2 {
                lemma_fnc_call_known(p4[1], p4.subrange(2, p4.len() as int), st.tables, st.curr, false, tgt);
            }
        }
    }
}

/// A program whose statements all have known kinds is never refused for an
/// unknown statement.
pub proof fn law_known_program(stmts: Seq<Seq<Seq<char>>>, i: int, st: GenStateView)
    requires
        all_known(stmts),
        0 <= i,
    ensures
        !(gen_run(stmts, i, st) matches Err(e) && e.kind == GenErrorKindView::UnknownStatement),
    decreases stmts.len() - i,
{
    if i < stmts.len() {
        assert(stmts[i].len() > 0 && known_kind(stmts[i][0]));
        law_known_statement(st, stmts[i]);
        if let Ok(s2) = gen_step(st, stmts[i]) {
            law_known_program(stmts, i + 1, s2);
        }
    }
}

/// What the parser makes, the generator knows: the statements of any parsed
/// program are never refused as unknown statements.
pub proof fn law_parsed_programs_known(
    tokens: Seq<Seq<char>>,
    check_for_out: bool,
    global_start: bool,
    has_main: bool,
)
    ensures
        crate::parser::spec_parse(tokens, check_for_out) matches Ok(stmts) ==> !(spec_write_asm(
            stmts,
            global_start,
            has_main,
        ) matches Err(e) && e.kind == GenErrorKindView::UnknownStatement),
{
    crate::parser::law_parsed_statement_kinds(tokens, check_for_out);
    if let Ok(stmts) = crate::parser::spec_parse(tokens, check_for_out) {
        assert(all_known(stmts));
        law_known_program(stmts, 0, gen_init());
    }
}

// ---------------------------------------------------------------------------
// Laws: the stack layout
// ---------------------------------------------------------------------------

/// Whether every slot of a function table lies below height `h`.
pub open spec fn scope_below(sc: GenScopeView, h: int) -> bool {
    forall|m: int| 0 <= m < sc.slots.len() ==> #[trigger] sc.slots[m] < h
}

/// Whether every slot of every function table lies below height `h`.
pub open spec fn slots_below(t: GenTablesView, h: int) -> bool {
    forall|k: int| 0 <= k < t.scopes.len() ==> scope_below(#[trigger] t.scopes[k], h)
}

/// Whether a function table has one height per slot name.
pub open spec fn scope_wf(sc: GenScopeView) -> bool {
    sc.slots.len() == sc.slot_names.len()
}

/// The stack layout invariant: the tables are well formed, the height is not
/// negative, and every slot lies below it.
pub open spec fn layout_ok(st: GenStateView) -> bool {
    &&& tables_wf(st.tables)
    &&& 0 <= st.height
    &&& slots_below(st.tables, st.height as int)
}

/// Setting a slot to the height keeps the table well formed and every slot
/// below the next height.
pub proof fn lemma_set_slot_below(sc: GenScopeView, name: Seq<char>, h: i32)
    requires
        scope_wf(sc),
        scope_below(sc, h as int),
    ensures
        scope_wf(set_slot(sc, name, h)),
        scope_below(set_slot(sc, name, h), h + 1),
{
    lemma_slot_index(sc.slot_names, name, 0);
    let r = set_slot(sc, name, h);
    assert forall|m: int| 0 <= m < r.slots.len() implies #[trigger] r.slots[m] < h + 1 by {
        if m < sc.slots.len() && r.slots[m] != h {
            assert(r.slots[m] == sc.slots[m]);
        }
    }
}

/// Replacing a table by a well-formed one below the height keeps the tables so.
pub proof fn lemma_put_scope_below(t: GenTablesView, k: int, sc: GenScopeView, h: int)
    requires
        0 <= k < t.scopes.len(),
        tables_wf(t),
        slots_below(t, h),
        scope_wf(sc),
        scope_below(sc, h),
    ensures
        tables_wf(put_scope(t, k, sc)),
        slots_below(put_scope(t, k, sc), h),
{
    let r = put_scope(t, k, sc);
    assert forall|j: int| 0 <= j < r.scopes.len() implies scope_below(#[trigger] r.scopes[j], h)
        && r.scopes[j].slots.len() == r.scopes[j].slot_names.len() by {
        if j != k {
            assert(r.scopes[j] == t.scopes[j]);
            assert(scope_below(t.scopes[j], h));
        }
    }
}

/// Tables below a height are below any greater one.
pub proof fn lemma_slots_below_mono(t: GenTablesView, h: int, h2: int)
    requires
        slots_below(t, h),
        h <= h2,
    ensures
        slots_below(t, h2),
{
    assert forall|j: int| 0 <= j < t.scopes.len() implies scope_below(#[trigger] t.scopes[j], h2) by {
        assert(scope_below(t.scopes[j], h));
    }
}

/// Installing a well-formed table below the height keeps the tables so.
pub proof fn lemma_install_scope_below(t: GenTablesView, sc: GenScopeView, h: int)
    requires
        tables_wf(t),
        slots_below(t, h),
        scope_wf(sc),
        scope_below(sc, h),
    ensures
        tables_wf(install_scope(t, sc)),
        slots_below(install_scope(t, sc), h),
{
    let k = gen_scope_index_from(t.scopes, sc.name, 0);
    lemma_gen_scope_index(t.scopes, sc.name, 0);
    let r = install_scope(t, sc);
    assert forall|j: int| 0 <= j < r.scopes.len() implies scope_below(#[trigger] r.scopes[j], h)
        && r.scopes[j].slots.len() == r.scopes[j].slot_names.len() by {
        if j < t.scopes.len() && j != k {
            assert(r.scopes[j] == t.scopes[j]);
            assert(scope_below(t.scopes[j], h));
        }
    }
}

/// Recording a declaration's arguments keeps the table well formed and every
/// slot below the height.
pub proof fn lemma_fdec_args_below(parts: Seq<Seq<char>>, i: int, sc: GenScopeView, h: i32)
    requires
        scope_wf(sc),
        scope_below(sc, h as int),
    ensures
        fdec_args(parts, i, sc, h) matches Ok(r) ==> scope_wf(r.0) && scope_below(r.0, r.1 as int) && h
            <= r.1,
    decreases parts.len() - i,
{
    if 0 <= i < parts.len() {
        if parts[i] == Seq::<char>::empty() {
            lemma_fdec_args_below(parts, i + 1, sc, h);
        } else {
            let p = split_on(parts[i], "COL"@);
            if p.len() >= 2 {
                if let Some(lists) = push_typed(sc.args_int, sc.args_names, p[0], p[1]) {
                    if h != i32::MAX {
                        let sc1 = GenScopeView { args_int: lists.0, args_names: lists.1, ..sc };
                        lemma_set_slot_below(sc1, p[1], h);
                        lemma_fdec_args_below(parts, i + 1, set_slot(sc1, p[1], h), (h + 1) as i32);
                    }
                }
            }
        }
    }
}

/// Giving a call's arguments slots keeps the table well formed and every slot
/// below the height.
pub proof fn lemma_call_slots_below(names: Seq<Seq<char>>, i: int, sc: GenScopeView, h: i32)
    requires
        scope_wf(sc),
        scope_below(sc, h as int),
    ensures
        call_slots(names, i, sc, h) matches Ok(r) ==> scope_wf(r.0) && scope_below(r.0, r.1 as int) && h
            <= r.1,
    decreases names.len() - i,
{
    if 0 <= i < names.len() && h != i32::MAX {
        lemma_set_slot_below(sc, names[i], h);
        lemma_call_slots_below(names, i + 1, set_slot(sc, names[i], h), (h + 1) as i32);
    }
}

/// A local's slot set at the height keeps the layout (declarations and
/// assignments).
pub proof fn lemma_local_layout(st: GenStateView, s: Seq<Seq<char>>)
    requires
        layout_ok(st),
    ensures
        step_vdec(st, s) matches Ok(s2) ==> layout_ok(s2),
        step_vass(st, s) matches Ok(s2) ==> layout_ok(s2),
{
    let t = st.tables;
    let h = st.height;
    let k = gen_scope_index_from(t.scopes, st.curr, 0);
    lemma_gen_scope_index(t.scopes, st.curr, 0);
    if k >= 0 && h != i32::MAX {
        assert(scope_below(t.scopes[k], h as int));
        lemma_slots_below_mono(t, h as int, h + 1);
        if s.len() >= 4 {
            lemma_set_slot_below(t.scopes[k], s[3], h);
            let sc = set_slot(t.scopes[k], s[3], h);
            if let Some(lists) = push_typed(sc.vars_int, sc.vars_names, s[2], s[3]) {
                lemma_put_scope_below(t, k, GenScopeView { vars_int: lists.0, vars_names: lists.1, ..sc }, h + 1);
            }
        }
        if s.len() >= 3 {
            lemma_set_slot_below(t.scopes[k], s[2], h);
            lemma_put_scope_below(t, k, set_slot(t.scopes[k], s[2], h), h + 1);
        }
    }
}

/// A function declaration keeps the layout.
pub proof fn lemma_fdec_layout(st: GenStateView, s: Seq<Seq<char>>)
    requires
        layout_ok(st),
    ensures
        step_fdec(st, s) matches Ok(s2) ==> layout_ok(s2),
{
    let h = st.height;
    if s.len() >= 2 {
        let parts = split_on(concat(s.subrange(2, s.len() as int)), ","@);
        let sc0 = new_gen_scope(s[1]);
        assert(scope_below(sc0, h as int));
        lemma_fdec_args_below(parts, 0, sc0, h);
        if let Ok(r) = fdec_args(parts, 0, sc0, h) {
            lemma_slots_below_mono(st.tables, h as int, r.1 as int);
            lemma_install_scope_below(st.tables, r.0, r.1 as int);
        }
    }
}

/// A call statement keeps the layout.
pub proof fn lemma_fcall_layout(st: GenStateView, s: Seq<Seq<char>>)
    requires
        layout_ok(st),
    ensures
        step_fcall(st, s) matches Ok(s2) ==> layout_ok(s2),
{
    let t = st.tables;
    let h = st.height;
    if s.len() >= 2 {
        let k = gen_scope_index_from(t.scopes, s[1], 0);
        lemma_gen_scope_index(t.scopes, s[1], 0);
        if k >= 0 {
            assert(scope_below(t.scopes[k], h as int));
            lemma_call_slots_below(t.scopes[k].args_names, 0, t.scopes[k], h);
            if let Ok(r) = call_slots(t.scopes[k].args_names, 0, t.scopes[k], h) {
                lemma_slots_below_mono(t, h as int, r.1 as int);
                lemma_put_scope_below(t, k, r.0, r.1 as int);
            }
        }
    }
}

/// Every statement keeps the stack layout invariant: the tables stay well
/// formed, the height non-negative, and every slot of every function below it.
pub proof fn law_statement_layout(st: GenStateView, s: Seq<Seq<char>>)
    requires
        layout_ok(st),
    ensures
        gen_step(st, s) matches Ok(s2) ==> layout_ok(s2),
{
    lemma_local_layout(st, s);
    lemma_fdec_layout(st, s);
    lemma_fcall_layout(st, s);
}

/// A run of statements keeps the stack layout invariant, which holds before
/// the first statement.
pub proof fn law_run_layout(stmts: Seq<Seq<Seq<char>>>, i: int, st: GenStateView)
    requires
        layout_ok(st),
    ensures
        layout_ok(gen_init()),
        gen_run(stmts, i, st) matches Ok(s2) ==> layout_ok(s2),
    decreases stmts.len() - i,
{
    if 0 <= i < stmts.len() {
        law_statement_layout(st, stmts[i]);
        if let Ok(s1) = gen_step(st, stmts[i]) {
            law_run_layout(stmts, i + 1, s1);
        }
    }
}

/// Replacing a table by one of the same name leaves every lookup by name as it was.
pub proof fn lemma_scope_index_update(
    scopes: Seq<GenScopeView>,
    k: int,
    sc: GenScopeView,
    name: Seq<char>,
    j: int,
)
    requires
        0 <= k < scopes.len(),
        sc.name == scopes[k].name,
        0 <= j,
    ensures
        gen_scope_index_from(scopes.update(k, sc), name, j) == gen_scope_index_from(scopes, name, j),
    decreases scopes.len() - j,
{
    if j < scopes.len() {
        lemma_scope_index_update(scopes, k, sc, name, j + 1);
    }
}

/// Looking up a name after one more name was added.
pub proof fn lemma_slot_index_push(names: Seq<Seq<char>>, x: Seq<char>, n: Seq<char>, j: int)
    requires
        0 <= j <= names.len(),
    ensures
        slot_index_from(names.push(x), n, j) == (if slot_index_from(names, n, j) >= 0 {
            slot_index_from(names, n, j)
        } else if n == x {
            names.len() as int
        } else {
            -1
        }),
    decreases names.len() - j,
{
    if j < names.len() {
        assert(names.push(x)[j] == names[j]);
        lemma_slot_index_push(names, x, n, j + 1);
    } else {
        assert(names.push(x)[j] == x);
        assert(slot_index_from(names.push(x), n, j + 1) == -1);
    }
}

/// The greatest of slots that are all at most `h` is at most `h`.
pub proof fn lemma_max_slot_le(slots: Seq<i32>, n: int, h: int)
    requires
        0 <= n <= slots.len(),
        -1 <= h,
        forall|i: int| 0 <= i < n ==> slots[i] <= h,
    ensures
        max_slot(slots, n) <= h,
    decreases n,
{
    if n > 0 {
        lemma_max_slot_le(slots, n - 1, h);
    }
}

/// The greatest of slots that are all at most `h`, one of them `h`, is `h`.
pub proof fn lemma_max_slot_is(slots: Seq<i32>, n: int, h: int, m: int)
    requires
        0 <= m < n <= slots.len(),
        -1 <= h,
        slots[m] == h,
        forall|i: int| 0 <= i < n ==> slots[i] <= h,
    ensures
        max_slot(slots, n) == h,
    decreases n,
{
    lemma_max_slot_le(slots, n - 1, h);
    if m < n - 1 {
        lemma_max_slot_is(slots, n - 1, h, m);
    }
}

/// Whether, in the state, `x` has a slot at height `h` in the current
/// function's table, and `h` is that table's stack top.
pub open spec fn on_top(s2: GenStateView, curr: Seq<char>, x: Seq<char>, h: i32) -> bool {
    match gen_scope_of(s2.tables, curr) {
        None => false,
        Some(sc) => has_slot(sc, x) && slot_of(sc, x) == h && spec_stack_height(sc) == h,
    }
}

/// A table with `x`'s slot set at a height above every other slot has `x` on top.
pub proof fn lemma_set_slot_on_top(sc: GenScopeView, x: Seq<char>, h: i32)
    requires
        scope_wf(sc),
        scope_below(sc, h as int),
        0 <= h,
    ensures
        has_slot(set_slot(sc, x, h), x),
        slot_of(set_slot(sc, x, h), x) == h,
        spec_stack_height(set_slot(sc, x, h)) == h,
{
    let r = set_slot(sc, x, h);
    lemma_slot_index(sc.slot_names, x, 0);
    lemma_slot_index_push(sc.slot_names, x, x, 0);
    lemma_set_slot_below(sc, x, h);
    let m = slot_index_from(r.slot_names, x, 0);
    assert(0 <= m < r.slots.len() && r.slots[m] == h);
    assert forall|i: int| 0 <= i < r.slots.len() implies r.slots[i] <= h by {
        assert(r.slots[i] < h + 1);
    }
    lemma_max_slot_is(r.slots, r.slots.len() as int, h as int, m);
}

/// A declaration puts its variable at the top of its function's stack: after
/// `vdec kind type name value...` the slot of `name` is the height before the
/// statement, above every other slot of the function. An assignment `vass name
/// value...` gives that top slot to the entry after `name` (its first value
/// entry); `name` keeps the slot it had.
pub proof fn law_local_on_top(st: GenStateView, s: Seq<Seq<char>>)
    requires
        layout_ok(st),
    ensures
        s.len() >= 4 && s[1] != "const"@ ==> (step_vdec(st, s) matches Ok(s2) ==> on_top(
            s2,
            st.curr,
            s[3],
            st.height,
        )),
        s.len() >= 3 ==> (step_vass(st, s) matches Ok(s2) ==> on_top(s2, st.curr, s[2], st.height)),
{
    let t = st.tables;
    let h = st.height;
    let k = gen_scope_index_from(t.scopes, st.curr, 0);
    lemma_gen_scope_index(t.scopes, st.curr, 0);
    if k >= 0 {
        assert(scope_below(t.scopes[k], h as int));
        if s.len() >= 4 {
            let sc = set_slot(t.scopes[k], s[3], h);
            lemma_set_slot_on_top(t.scopes[k], s[3], h);
            if let Some(lists) = push_typed(sc.vars_int, sc.vars_names, s[2], s[3]) {
                let sc2 = GenScopeView { vars_int: lists.0, vars_names: lists.1, ..sc };
                lemma_scope_index_update(t.scopes, k, sc2, st.curr, 0);
            }
        }
        if s.len() >= 3 {
            lemma_set_slot_on_top(t.scopes[k], s[2], h);
            lemma_scope_index_update(t.scopes, k, set_slot(t.scopes[k], s[2], h), st.curr, 0);
        }
    }
}

} // verus!
