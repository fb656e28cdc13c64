//! What evaluation decides without floating point: its diagnostics, its
//! sandbox options, integer arithmetic (checked, never wrapping), how an
//! ordering answers a comparison operator, the steps of `and`/`or`, `if`
//! and `while`, what a `fn` call gives, which include paths the policy
//! refuses, and what a script block sees.
//!
//! Evaluation walks the syntax tree directly (no round trip through a
//! second grammar); only `script { }` bodies run as real Lua, in a
//! restricted state.

use vstd::prelude::*;
use std::cmp::Ordering;
use crate::ast::{BinOp, StrLit, StrPart};
use crate::scope::{resolve, Scope};
use crate::source::Source;
use crate::span::Span;
use crate::text::{chars_of, push_str};
use crate::value::{lemma_same_value_text, truthy, value_text, Value};

verus! {

/// Everything that can go wrong once the syntax is valid.
#[derive(Debug, Clone)]
pub enum EvalErrorKind {
    /// `$name` in a bare string names no defined variable.
    UndefinedInterpolation { name: String, span: Span },
    /// A call names neither a host function nor a `fn` of the document.
    UnknownFunction { name: String, span: Span },
    TypeError { message: String, span: Span },
    DivisionByZero { span: Span },
    /// Integer arithmetic left the 64-bit range.
    ArithmeticOverflow { span: Span },
    /// `include` is disabled by the host application.
    IncludesDisabled { span: Span },
    /// The include path is not allowed by the host's path policy.
    IncludePathDenied { path: String, span: Span },
    IncludeCycle { chain: String, span: Span },
    IncludeIo { path: String, message: String, span: Span },
    IncludeParse { path: String, message: String, span: Span },
    ScriptError { message: String, span: Span },
    /// More loop iterations than the sandbox allows in one evaluation.
    LoopBudgetExceeded { limit: u64, span: Span },
    /// `fn` calls nested deeper than the sandbox allows.
    CallDepthExceeded { limit: u32, span: Span },
}

/// An [`EvalErrorKind`] with the source it happened in: with includes, an
/// error can come from a file other than the one evaluation started with.
#[derive(Debug, Clone)]
pub struct EvalError {
    pub kind: EvalErrorKind,
    pub src: Source,
}

impl EvalError {
    pub fn new(kind: EvalErrorKind, src: Source) -> (e: Self)
        ensures
            e.kind == kind,
            e.src == src,
    {
        EvalError { kind, src }
    }
}

/// Whether, and how strictly, `include "..."` is allowed.
#[derive(Debug, Clone)]
pub struct IncludePolicy {
    pub enabled: bool,
    /// Without it, include paths that are absolute, that have a `..`
    /// component, or that escape the including file's directory through a
    /// symbolic link are refused.
    pub allow_parent_traversal: bool,
}

impl Default for IncludePolicy {
    fn default() -> (p: Self)
        ensures
            p.enabled,
            !p.allow_parent_traversal,
    {
        IncludePolicy { enabled: true, allow_parent_traversal: false }
    }
}

/// The sandbox limits of one evaluation runtime.
#[derive(Debug, Clone)]
pub struct RuntimeOptions {
    pub include_policy: IncludePolicy,
    /// Total `for`/`while` iterations allowed across one evaluation.
    pub max_loop_iterations: u64,
    /// Maximum nesting depth of calls to `fn` definitions.
    pub max_function_call_depth: u32,
    /// Lua VM instructions allowed per `script { }` block.
    pub max_script_instructions: u64,
    /// Maximum bytes the restricted Lua state may allocate; `0` disables
    /// the limit.
    pub max_lua_memory_bytes: usize,
}

impl Default for RuntimeOptions {
    fn default() -> (o: Self)
        ensures
            o.include_policy.enabled,
            !o.include_policy.allow_parent_traversal,
            o.max_loop_iterations == 1_000_000,
            o.max_function_call_depth == 256,
            o.max_script_instructions == 50_000_000,
            o.max_lua_memory_bytes == 64 * 1024 * 1024,
    {
        RuntimeOptions {
            include_policy: IncludePolicy::default(),
            max_loop_iterations: 1_000_000,
            max_function_call_depth: 256,
            max_script_instructions: 50_000_000,
            max_lua_memory_bytes: 67_108_864,
        }
    }
}

// ---------------------------------------------------------------------
// Integer arithmetic
// ---------------------------------------------------------------------

pub open spec fn in_i64(v: int) -> bool {
    i64::MIN <= v <= i64::MAX
}

/// What integer arithmetic on two integers comes to: an integer, or a
/// quotient that is a float (integer `/` always gives a float).
#[derive(Debug, Clone, Copy, PartialEq, Eq, Structural)]
pub enum IntOutcome {
    Int(i64),
    /// The float quotient of the two integers.
    Quotient(i64, i64),
}

pub open spec fn arith_op(op: BinOp) -> bool {
    op is Add || op is Sub || op is Mul || op is Div || op is Mod
}

/// Integer arithmetic: checked `+ - *` (leaving the 64-bit range is an
/// error, never a wrap); `%` is the Euclidean remainder, zero for a
/// divisor of `-1` (whose quotient alone could overflow); `/` and `%` by
/// zero are errors.
pub fn int_arith(op: BinOp, a: i64, b: i64, span: Span) -> (r: Result<IntOutcome, EvalErrorKind>)
    requires
        arith_op(op),
    ensures
        op is Add ==> (if in_i64(a + b) {
            r == Ok::<IntOutcome, EvalErrorKind>(IntOutcome::Int((a + b) as i64))
        } else {
            r matches Err(EvalErrorKind::ArithmeticOverflow { span: s }) && s == span
        }),
        op is Sub ==> (if in_i64(a - b) {
            r == Ok::<IntOutcome, EvalErrorKind>(IntOutcome::Int((a - b) as i64))
        } else {
            r matches Err(EvalErrorKind::ArithmeticOverflow { span: s }) && s == span
        }),
        op is Mul ==> (if in_i64(a * b) {
            r == Ok::<IntOutcome, EvalErrorKind>(IntOutcome::Int((a * b) as i64))
        } else {
            r matches Err(EvalErrorKind::ArithmeticOverflow { span: s }) && s == span
        }),
        (op is Div || op is Mod) && b == 0 ==> (r matches Err(EvalErrorKind::DivisionByZero { span: s })
            && s == span),
        op is Div && b != 0 ==> r == Ok::<IntOutcome, EvalErrorKind>(IntOutcome::Quotient(a, b)),
        op is Mod && b != 0 ==> r == Ok::<IntOutcome, EvalErrorKind>(IntOutcome::Int((a % b) as i64)),
{
    match op {
        BinOp::Add => match a.checked_add(b) {
            Some(v) => Ok(IntOutcome::Int(v)),
            None => Err(EvalErrorKind::ArithmeticOverflow { span }),
        },
        BinOp::Sub => match a.checked_sub(b) {
            Some(v) => Ok(IntOutcome::Int(v)),
            None => Err(EvalErrorKind::ArithmeticOverflow { span }),
        },
        BinOp::Mul => match a.checked_mul(b) {
            Some(v) => Ok(IntOutcome::Int(v)),
            None => Err(EvalErrorKind::ArithmeticOverflow { span }),
        },
        BinOp::Div => {
            if b == 0 {
                Err(EvalErrorKind::DivisionByZero { span })
            } else {
                Ok(IntOutcome::Quotient(a, b))
            }
        },
        _ => {
            if b == 0 {
                Err(EvalErrorKind::DivisionByZero { span })
            } else if b == -1 {
                // The remainder is zero, but computing it can overflow for
                // the smallest integer.
                assert((a as int) % (-1int) == 0) by (nonlinear_arith);
                Ok(IntOutcome::Int(0))
            } else {
                Ok(IntOutcome::Int(euclid_rem(a, b)))
            }
        },
    }
}

/// The Euclidean remainder of `a` by `b`: in `0..|b|`.
fn euclid_rem(a: i64, b: i64) -> (r: i64)
    requires
        b != 0,
        b != -1,
    ensures
        r == a % b,
{
    match a.checked_rem_euclid(b) {
        Some(v) => v,
        None => 0,
    }
}

/// Integer negation, checked: the negation of the smallest integer is an
/// overflow.
pub fn int_negate(a: i64, span: Span) -> (r: Result<i64, EvalErrorKind>)
    ensures
        a != i64::MIN ==> r == Ok::<i64, EvalErrorKind>((-a) as i64),
        a == i64::MIN ==> (r matches Err(EvalErrorKind::ArithmeticOverflow { span: s }) && s == span),
{
    if a == i64::MIN {
        Err(EvalErrorKind::ArithmeticOverflow { span })
    } else {
        Ok(-a)
    }
}

// ---------------------------------------------------------------------
// Comparisons
// ---------------------------------------------------------------------

pub open spec fn compare_op(op: BinOp) -> bool {
    op is Lt || op is Gt || op is LtEq || op is GtEq
}

/// Whether `ordering` (of the left operand against the right) satisfies
/// the comparison operator `op`.
pub fn compare_ordering(op: BinOp, ordering: Ordering) -> (b: bool)
    requires
        compare_op(op),
    ensures
        op is Lt ==> b == (ordering == Ordering::Less),
        op is Gt ==> b == (ordering == Ordering::Greater),
        op is LtEq ==> b == (ordering != Ordering::Greater),
        op is GtEq ==> b == (ordering != Ordering::Less),
{
    let less = match ordering {
        Ordering::Less => true,
        _ => false,
    };
    let greater = match ordering {
        Ordering::Greater => true,
        _ => false,
    };
    match op {
        BinOp::Lt => less,
        BinOp::Gt => greater,
        BinOp::LtEq => !greater,
        _ => !less,
    }
}

// ---------------------------------------------------------------------
// The sandbox's budgets
// ---------------------------------------------------------------------

/// Counts one more loop iteration against the evaluation's budget: the new
/// count, or the error once the count would pass `limit`.
pub fn count_iteration(done: u64, limit: u64, span: Span) -> (r: Result<u64, EvalErrorKind>)
    ensures
        done < limit ==> r == Ok::<u64, EvalErrorKind>((done + 1) as u64),
        done >= limit ==> (r matches Err(EvalErrorKind::LoopBudgetExceeded { limit: l, span: s }) && l
            == limit && s == span),
{
    if done >= limit {
        Err(EvalErrorKind::LoopBudgetExceeded { limit, span })
    } else {
        Ok(done + 1)
    }
}

/// Enters one more nested `fn` call: the new depth, or the error when
/// `depth` calls are already open and `limit` allows no more.
pub fn enter_call(depth: u32, limit: u32, span: Span) -> (r: Result<u32, EvalErrorKind>)
    ensures
        depth < limit ==> r == Ok::<u32, EvalErrorKind>((depth + 1) as u32),
        depth >= limit ==> (r matches Err(EvalErrorKind::CallDepthExceeded { limit: l, span: s }) && l
            == limit && s == span),
{
    if depth >= limit {
        Err(EvalErrorKind::CallDepthExceeded { limit, span })
    } else {
        Ok(depth + 1)
    }
}


// ---------------------------------------------------------------------
// Control flow
// ---------------------------------------------------------------------

/// How executing a run of items ended: normally, or at a `return` (with
/// its value, if it has one), which leaves every enclosing body up to the
/// `fn` call.
#[derive(Debug)]
pub enum Flow {
    Normal,
    Return(Option<Value>),
}

impl Flow {
    /// Whether execution goes on with the next item.
    pub fn continues(&self) -> (b: bool)
        ensures
            b == (*self is Normal),
    {
        match self {
            Flow::Normal => true,
            Flow::Return(_) => false,
        }
    }

    /// The value of a `fn` call whose body ended this way: what it
    /// returned, or `nil` when it returned nothing or ran to its end.
    pub fn call_value(self) -> (v: Value)
        ensures
            match self {
                Flow::Return(Some(x)) => v == x,
                _ => v == Value::Nil,
            },
    {
        match self {
            Flow::Return(Some(x)) => x,
            _ => Value::Nil,
        }
    }
}

/// Whether the left operand of `and` or `or` decides the expression, which
/// then has the left operand's value and never evaluates the right one:
/// a falsy left operand of `and`, a truthy one of `or`.
pub fn left_decides(op: BinOp, left: &Value) -> (b: bool)
    requires
        op is And || op is Or,
    ensures
        b == (if op is And {
            !truthy(*left)
        } else {
            truthy(*left)
        }),
{
    match op {
        BinOp::And => !left.is_truthy(),
        _ => left.is_truthy(),
    }
}

/// What an `if` chain does next once the condition of arm `arm` has been
/// evaluated (arm 0 is the `if`, the others its `elseif`s).
#[derive(Debug, PartialEq, Eq)]
pub enum IfAction {
    /// Run the body of this arm.
    Run(usize),
    /// Evaluate the condition of this arm.
    Test(usize),
    /// Run the `else` body.
    RunElse,
    /// Nothing runs.
    Done,
}

/// The step of an `if` chain with `arms` conditioned arms: the first arm
/// whose condition is truthy runs, else the `else` body if there is one.
pub fn if_step(arm: usize, arms: usize, cond: &Value, has_else: bool) -> (r: IfAction)
    requires
        arm < arms,
    ensures
        truthy(*cond) ==> r == IfAction::Run(arm),
        !truthy(*cond) && arm + 1 < arms ==> r == IfAction::Test((arm + 1) as usize),
        !truthy(*cond) && arm + 1 == arms ==> r == (if has_else {
            IfAction::RunElse
        } else {
            IfAction::Done
        }),
{
    if cond.is_truthy() {
        IfAction::Run(arm)
    } else if arm + 1 < arms {
        IfAction::Test(arm + 1)
    } else if has_else {
        IfAction::RunElse
    } else {
        IfAction::Done
    }
}

/// The step of a `while` loop whose condition has just been evaluated,
/// after `done` iterations of the evaluation: `None` when the loop ends,
/// else the new iteration count, or the error once the budget `limit` is
/// spent.
pub fn while_step(cond: &Value, done: u64, limit: u64, span: Span) -> (r: Result<Option<u64>, EvalErrorKind>)
    ensures
        !truthy(*cond) ==> r == Ok::<Option<u64>, EvalErrorKind>(None),
        truthy(*cond) && done < limit ==> r == Ok::<Option<u64>, EvalErrorKind>(Some((done + 1) as u64)),
        truthy(*cond) && done >= limit ==> (r matches Err(EvalErrorKind::LoopBudgetExceeded {
            limit: l,
            span: s,
        }) && l == limit && s == span),
{
    if !cond.is_truthy() {
        return Ok(None);
    }
    match count_iteration(done, limit, span) {
        Ok(n) => Ok(Some(n)),
        Err(e) => Err(e),
    }
}

// ---------------------------------------------------------------------
// Include paths
// ---------------------------------------------------------------------

/// A `..` component of the path `p` starts at `i`.
pub open spec fn parent_component_at(p: Seq<char>, i: int) -> bool {
    &&& 0 <= i && i + 2 <= p.len()
    &&& p[i] == '.' && p[i + 1] == '.'
    &&& i == 0 || p[i - 1] == '/'
    &&& i + 2 == p.len() || p[i + 2] == '/'
}

/// The path `p` may reach outside the including file's directory as it
/// stands: it is absolute, or one of its components is `..` (paths read
/// with `/` as the separator).
pub open spec fn path_leaves_base(p: Seq<char>) -> bool {
    (p.len() > 0 && p[0] == '/') || exists|i: int| parent_component_at(p, i)
}

impl IncludePolicy {
    /// Checks the text of an include path against the policy: without
    /// `allow_parent_traversal`, an absolute path or one with a `..`
    /// component is refused. (Whether a symbolic link leads outside is a
    /// question for the filesystem, asked by the caller.)
    pub fn check_path(&self, path: &str, span: Span) -> (r: Result<(), EvalErrorKind>)
        ensures
            r is Err <==> !self.allow_parent_traversal && path_leaves_base(path@),
            r matches Err(e) ==> e matches EvalErrorKind::IncludePathDenied { path: p, span: s } && p@
                == path@ && s == span,
    {
        if self.allow_parent_traversal {
            return Ok(());
        }
        let cs = chars_of(path);
        let n = cs.len();
        let mut leaves = n > 0 && cs[0] == '/';
        let mut i: usize = 0;
        while n >= 2 && i <= n - 2 && !leaves
            invariant
                i <= n,
                cs@ == path@,
                n == cs@.len(),
                leaves == ((n > 0 && cs@[0] == '/') || exists|k: int| 0 <= k < i && parent_component_at(cs@, k)),
            decreases n + 2 - i,
        {
            if cs[i] == '.' && cs[i + 1] == '.' && (i == 0 || cs[i - 1] == '/') && (i + 2 == n || cs[i
                + 2] == '/') {
                assert(parent_component_at(cs@, i as int));
                leaves = true;
            }
            i += 1;
        }
        proof {
            if !leaves {
                assert forall|k: int| !parent_component_at(cs@, k) by {
                    if parent_component_at(cs@, k) && k >= i {
                        assert(k + 2 <= n);
                    }
                }
            }
        }
        if leaves {
            Err(EvalErrorKind::IncludePathDenied { path: path.to_owned(), span })
        } else {
            Ok(())
        }
    }
}

// ---------------------------------------------------------------------
// What a script block sees
// ---------------------------------------------------------------------

/// The base globals a `script { }` block is not given: `_G` (each block
/// gets its own); `collectgarbage`, `getmetatable` and `load`, which
/// reach state outside the block's environment (the shared VM through the
/// string metatable, garbage collection, the real global environment);
/// and `dofile` and `loadfile`, which read the filesystem.
pub open spec fn blocked_global(name: Seq<u8>) -> bool {
    ||| name == seq![95u8, 71u8]  // `_G`
    ||| name == seq![99u8, 111u8, 108u8, 108u8, 101u8, 99u8, 116u8, 103u8, 97u8, 114u8, 98u8, 97u8, 103u8, 101u8]  // `collectgarbage`
    ||| name == seq![103u8, 101u8, 116u8, 109u8, 101u8, 116u8, 97u8, 116u8, 97u8, 98u8, 108u8, 101u8]  // `getmetatable`
    ||| name == seq![108u8, 111u8, 97u8, 100u8]  // `load`
    ||| name == seq![100u8, 111u8, 102u8, 105u8, 108u8, 101u8]  // `dofile`
    ||| name == seq![108u8, 111u8, 97u8, 100u8, 102u8, 105u8, 108u8, 101u8]  // `loadfile`
}

fn bytes_are(name: &[u8], want: &[u8]) -> (b: bool)
    ensures
        b == (name@ == want@),
{
    if name.len() != want.len() {
        return false;
    }
    let mut i: usize = 0;
    while i < name.len()
        invariant
            name@.len() == want@.len(),
            i <= name@.len(),
            forall|k: int| 0 <= k < i ==> name@[k] == want@[k],
        decreases name@.len() - i,
    {
        if name[i] != want[i] {
            return false;
        }
        i += 1;
    }
    assert(name@ =~= want@);
    true
}

/// Whether a base global of the Lua state, by its name's bytes, is kept
/// out of a script block's environment.
pub fn is_blocked_global(name: &[u8]) -> (b: bool)
    ensures
        b == blocked_global(name@),
{
    let g: [u8; 2] = [95, 71];
    let collect: [u8; 14] = [99, 111, 108, 108, 101, 99, 116, 103, 97, 114, 98, 97, 103, 101];
    let meta: [u8; 12] = [103, 101, 116, 109, 101, 116, 97, 116, 97, 98, 108, 101];
    let load: [u8; 4] = [108, 111, 97, 100];
    let dofile: [u8; 6] = [100, 111, 102, 105, 108, 101];
    let loadfile: [u8; 8] = [108, 111, 97, 100, 102, 105, 108, 101];
    proof {
        assert(g@ =~= seq![95u8, 71u8]);
        assert(collect@ =~= seq![99u8, 111u8, 108u8, 108u8, 101u8, 99u8, 116u8, 103u8, 97u8, 114u8, 98u8, 97u8, 103u8, 101u8]);
        assert(meta@ =~= seq![103u8, 101u8, 116u8, 109u8, 101u8, 116u8, 97u8, 116u8, 97u8, 98u8, 108u8, 101u8]);
        assert(load@ =~= seq![108u8, 111u8, 97u8, 100u8]);
        assert(dofile@ =~= seq![100u8, 111u8, 102u8, 105u8, 108u8, 101u8]);
        assert(loadfile@ =~= seq![108u8, 111u8, 97u8, 100u8, 102u8, 105u8, 108u8, 101u8]);
    }
    bytes_are(name, g.as_slice()) || bytes_are(name, collect.as_slice()) || bytes_are(name, meta.as_slice())
        || bytes_are(name, load.as_slice()) || bytes_are(name, dofile.as_slice()) || bytes_are(
        name,
        loadfile.as_slice(),
    )
}

// ---------------------------------------------------------------------
// String interpolation
// ---------------------------------------------------------------------

/// The text that the parts `ps` stand for, each `$name` replaced by the
/// text of the value that `name` resolves to; or the first name, in order,
/// that resolves to nothing, with its span.
pub open spec fn parts_value_text(
    ps: Seq<StrPart>,
    frames: Seq<Seq<(String, Value)>>,
    defs: Seq<(String, Value)>,
    host: Seq<(String, Value)>,
) -> Result<Seq<char>, (Seq<char>, Span)>
    decreases ps.len(),
{
    if ps.len() == 0 {
        Ok(seq![])
    } else {
        match parts_value_text(ps.drop_last(), frames, defs, host) {
            Err(e) => Err(e),
            Ok(t) => match ps.last() {
                StrPart::Lit(s) => Ok(t + s@),
                StrPart::Interp(name, sp) => match resolve(frames, defs, host, name@) {
                    Some(v) => Ok(t + value_text(v)),
                    None => Err((name@, sp)),
                },
            },
        }
    }
}

/// The text a string literal evaluates to: a quoted string as written, a
/// bare one interpolated.
pub open spec fn strlit_value(
    lit: StrLit,
    frames: Seq<Seq<(String, Value)>>,
    defs: Seq<(String, Value)>,
    host: Seq<(String, Value)>,
) -> Result<Seq<char>, (Seq<char>, Span)> {
    match lit {
        StrLit::Quoted(s) => Ok(s@),
        StrLit::Bare(ps) => parts_value_text(ps@, frames, defs, host),
    }
}

/// Evaluates a string literal: every `$name` in a bare string is replaced
/// by the text of the value that `name` resolves to in `scope` (or among
/// the host values `host`); a name bound to nothing is an error.
pub fn interpolate(lit: &StrLit, scope: &Scope, host: &Vec<(String, Value)>) -> (r: Result<String, EvalErrorKind>)
    ensures
        r matches Ok(s) ==> strlit_value(*lit, scope.frames(), scope.defs(), host@) == Ok::<
            Seq<char>,
            (Seq<char>, Span),
        >(s@),
        r matches Err(e) ==> e matches EvalErrorKind::UndefinedInterpolation { name, span }
            && strlit_value(*lit, scope.frames(), scope.defs(), host@) == Err::<
            Seq<char>,
            (Seq<char>, Span),
        >((name@, span)),
{
    match lit {
        StrLit::Quoted(s) => Ok(s.clone()),
        StrLit::Bare(parts) => {
            let ghost f = scope.frames();
            let ghost d = scope.defs();
            let mut out = String::new();
            let mut i: usize = 0;
            assert(parts@.take(0) =~= Seq::<StrPart>::empty());
            while i < parts.len()
                invariant
                    i <= parts@.len(),
                    f == scope.frames(),
                    d == scope.defs(),
                    parts_value_text(parts@.take(i as int), f, d, host@) == Ok::<
                        Seq<char>,
                        (Seq<char>, Span),
                    >(out@),
                    strlit_value(*lit, f, d, host@) == parts_value_text(parts@, f, d, host@),
                decreases parts@.len() - i,
            {
                proof {
                    assert(parts@.take(i + 1).drop_last() =~= parts@.take(i as int));
                    assert(parts@.take(i + 1).last() == parts@[i as int]);
                }
                match &parts[i] {
                    StrPart::Lit(s) => push_str(&mut out, s.as_str()),
                    StrPart::Interp(name, span) => {
                        match scope.lookup(name, host) {
                            Some(value) => {
                                proof {
                                    let v0 = resolve(f, d, host@, name@)->0;
                                    lemma_same_value_text(v0, value);
                                }
                                let t = value.to_text();
                                push_str(&mut out, t.as_str());
                            },
                            None => {
                                proof {
                                    lemma_prefix_error(parts@, i as int, f, d, host@);
                                }
                                let n = name.clone();
                                return Err(EvalErrorKind::UndefinedInterpolation { name: n, span: *span });
                            },
                        }
                    },
                }
                i += 1;
            }
            assert(parts@.take(parts@.len() as int) =~= parts@);
            Ok(out)
        },
    }
}

/// An error in a prefix of the parts is the error of the whole.
proof fn lemma_prefix_error(
    ps: Seq<StrPart>,
    i: int,
    frames: Seq<Seq<(String, Value)>>,
    defs: Seq<(String, Value)>,
    host: Seq<(String, Value)>,
)
    requires
        0 <= i < ps.len(),
        parts_value_text(ps.take(i + 1), frames, defs, host) is Err,
    ensures
        parts_value_text(ps, frames, defs, host) == parts_value_text(ps.take(i + 1), frames, defs, host),
    decreases ps.len() - i,
{
    if i + 1 < ps.len() {
        assert(ps.take(i + 2).drop_last() =~= ps.take(i + 1));
        lemma_prefix_error(ps, i + 1, frames, defs, host);
    } else {
        assert(ps.take(i + 1) =~= ps);
    }
}

} // verus!
