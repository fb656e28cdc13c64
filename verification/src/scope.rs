//! Variable resolution. Three layers, checked innermost first:
//!
//! 1. lexically scoped bindings (`for`, `fn` and `local`), pushed and
//!    popped around the block that owns them;
//! 2. `@name = value` definitions, visible everywhere after their
//!    declaration;
//! 3. host-registered values.
//!
//! An identifier that resolves nowhere is no error here: the caller takes
//! it as a literal string, which is what lets `select(kitty, alacritty,
//! foot)` go without quotes.

use vstd::prelude::*;
use crate::schema::{declare, find_name, lookup};
use crate::value::{same_value, Value};

verus! {

/// The innermost binding of `name` among lexical frames (the last frame is
/// the innermost).
pub open spec fn frames_lookup(frames: Seq<Seq<(String, Value)>>, name: Seq<char>) -> Option<Value>
    decreases frames.len(),
{
    if frames.len() == 0 {
        None
    } else {
        match lookup(frames.last(), name) {
            Some(v) => Some(v),
            None => frames_lookup(frames.drop_last(), name),
        }
    }
}

/// What `name` resolves to: a lexical binding, else an `@` definition,
/// else a host value.
pub open spec fn resolve(
    frames: Seq<Seq<(String, Value)>>,
    vardefs: Seq<(String, Value)>,
    host: Seq<(String, Value)>,
    name: Seq<char>,
) -> Option<Value> {
    match frames_lookup(frames, name) {
        Some(v) => Some(v),
        None => match lookup(vardefs, name) {
            Some(v) => Some(v),
            None => lookup(host, name),
        },
    }
}

/// What a call binds to the parameter name `k`: the argument in the
/// position of the last parameter so named (`nil` past the arguments).
pub open spec fn param_value(params: Seq<String>, args: Seq<Value>, k: Seq<char>) -> Option<Value>
    decreases params.len(),
{
    if params.len() == 0 {
        None
    } else if params.last()@ == k {
        Some(
            if params.len() - 1 < args.len() {
                args[params.len() - 1]
            } else {
                Value::Nil
            },
        )
    } else {
        param_value(params.drop_last(), args, k)
    }
}

/// Both absent, or both present with the same data.
pub open spec fn same_option(a: Option<Value>, b: Option<Value>) -> bool {
    match (a, b) {
        (Some(x), Some(y)) => same_value(x, y),
        (None, None) => true,
        _ => false,
    }
}

pub struct Scope {
    lexical: Vec<Vec<(String, Value)>>,
    vardefs: Vec<(String, Value)>,
    /// For each open node body, the number of lexical frames when it
    /// opened: see [`Scope::is_reassignable_local`].
    node_boundaries: Vec<usize>,
}

impl Scope {
    pub closed spec fn frames(&self) -> Seq<Seq<(String, Value)>> {
        self.lexical@.map_values(|f: Vec<(String, Value)>| f@)
    }

    pub closed spec fn defs(&self) -> Seq<(String, Value)> {
        self.vardefs@
    }

    pub closed spec fn boundaries(&self) -> Seq<usize> {
        self.node_boundaries@
    }

    /// There is always at least one lexical frame.
    pub closed spec fn wf(&self) -> bool {
        self.lexical@.len() >= 1
    }

    /// The number of lexical frames before which locals may not be
    /// reassigned: those of the innermost open node body.
    pub open spec fn boundary(&self) -> int {
        if self.boundaries().len() == 0 {
            0
        } else {
            self.boundaries().last() as int
        }
    }

    pub fn new() -> (s: Self)
        ensures
            s.wf(),
            s.frames() == seq![Seq::<(String, Value)>::empty()],
            s.defs().len() == 0,
            s.boundaries().len() == 0,
    {
        let mut lexical: Vec<Vec<(String, Value)>> = Vec::new();
        lexical.push(Vec::new());
        let s = Scope { lexical, vardefs: Vec::new(), node_boundaries: Vec::new() };
        assert(s.frames() =~= seq![Seq::<(String, Value)>::empty()]);
        s
    }

    /// Call before pushing a node body's own frame: locals declared so far
    /// (a function's parameters, an enclosing node's locals) cannot be
    /// reassigned by `key = value` inside this body.
    pub fn enter_node_body(&mut self)
        ensures
            final(self).boundaries() == old(self).boundaries().push(old(self).frames().len() as usize),
            final(self).frames() == old(self).frames(),
            final(self).defs() == old(self).defs(),
            final(self).wf() == old(self).wf(),
    {
        let n = self.lexical.len();
        self.node_boundaries.push(n);
    }

    pub fn exit_node_body(&mut self)
        ensures
            final(self).boundaries() == (if old(self).boundaries().len() == 0 {
                old(self).boundaries()
            } else {
                old(self).boundaries().drop_last()
            }),
            final(self).frames() == old(self).frames(),
            final(self).defs() == old(self).defs(),
            final(self).wf() == old(self).wf(),
    {
        self.node_boundaries.pop();
    }

    /// Opens a new, empty innermost frame.
    pub fn push(&mut self)
        ensures
            final(self).frames() == old(self).frames().push(Seq::<(String, Value)>::empty()),
            final(self).defs() == old(self).defs(),
            final(self).boundaries() == old(self).boundaries(),
            final(self).wf(),
    {
        self.lexical.push(Vec::new());
        assert(self.frames() =~= old(self).frames().push(Seq::<(String, Value)>::empty()));
    }

    /// Closes the innermost frame; an empty frame is left in place of the
    /// last one.
    pub fn pop(&mut self)
        ensures
            final(self).frames() == (if old(self).frames().len() <= 1 {
                seq![Seq::<(String, Value)>::empty()]
            } else {
                old(self).frames().drop_last()
            }),
            final(self).defs() == old(self).defs(),
            final(self).boundaries() == old(self).boundaries(),
            final(self).wf(),
    {
        self.lexical.pop();
        if self.lexical.len() == 0 {
            self.lexical.push(Vec::new());
        }
        assert(self.frames() =~= (if old(self).frames().len() <= 1 {
            seq![Seq::<(String, Value)>::empty()]
        } else {
            old(self).frames().drop_last()
        }));
    }

    /// Binds `name` in the innermost frame.
    pub fn set_local(&mut self, name: String, value: Value)
        requires
            old(self).wf(),
        ensures
            final(self).wf(),
            final(self).frames().len() == old(self).frames().len(),
            final(self).frames().drop_last() == old(self).frames().drop_last(),
            forall|k: Seq<char>|
                lookup(final(self).frames().last(), k) == if k == name@ {
                    Some(value)
                } else {
                    lookup(old(self).frames().last(), k)
                },
            final(self).defs() == old(self).defs(),
            final(self).boundaries() == old(self).boundaries(),
    {
        let mut frame = self.lexical.pop().unwrap();
        declare(&mut frame, name, value);
        self.lexical.push(frame);
        assert(self.frames().drop_last() =~= old(self).frames().drop_last());
    }

    /// Opens the frame of a `fn` call: each parameter bound to the
    /// argument in its position, or to `nil` when the call passed fewer
    /// (a parameter named twice takes the later position).
    pub fn bind_params(&mut self, params: &Vec<String>, args: &Vec<Value>)
        ensures
            final(self).wf(),
            final(self).frames().len() == old(self).frames().len() + 1,
            final(self).frames().drop_last() == old(self).frames(),
            forall|k: Seq<char>|
                same_option(param_value(params@, args@, k), #[trigger] lookup(final(self).frames().last(), k)),
            final(self).defs() == old(self).defs(),
            final(self).boundaries() == old(self).boundaries(),
    {
        self.push();
        let ghost base = self.frames();
        let mut i: usize = 0;
        while i < params.len()
            invariant
                self.wf(),
                i <= params@.len(),
                self.frames().len() == old(self).frames().len() + 1,
                self.frames().drop_last() == old(self).frames(),
                forall|k: Seq<char>|
                    same_option(param_value(params@.take(i as int), args@, k), #[trigger] lookup(self.frames().last(), k)),
                self.defs() == old(self).defs(),
                self.boundaries() == old(self).boundaries(),
            decreases params@.len() - i,
        {
            let v = if i < args.len() {
                args[i].clone()
            } else {
                Value::Nil
            };
            let ghost before = self.frames();
            let ghost pv = v;
            let name = params[i].clone();
            self.set_local(name, v);
            proof {
                let pre = params@.take(i + 1);
                assert(pre.drop_last() =~= params@.take(i as int));
                assert(pre.last() == params@[i as int]);
                assert(same_value(if i < args@.len() { args@[i as int] } else { Value::Nil }, pv));
                assert forall|k: Seq<char>|
                    same_option(
                        param_value(params@.take(i + 1), args@, k),
                        #[trigger] lookup(self.frames().last(), k),
                    ) by {
                    assert(lookup(self.frames().last(), k) == if k == params@[i as int]@ {
                        Some(pv)
                    } else {
                        lookup(before.last(), k)
                    });
                    if k != params@[i as int]@ {
                        assert(same_option(param_value(params@.take(i as int), args@, k), lookup(before.last(), k)));
                    }
                }
            }
            i += 1;
        }
        assert(params@.take(params@.len() as int) =~= params@);
    }

    /// Whether the innermost open node body opened at a frame that still
    /// exists (it does while frames and node bodies are opened and closed
    /// in nesting order).
    pub fn boundary_in_range(&self) -> (b: bool)
        ensures
            b == (self.boundary() <= self.frames().len()),
    {
        let boundary = if self.node_boundaries.len() == 0 {
            0
        } else {
            self.node_boundaries[self.node_boundaries.len() - 1]
        };
        boundary <= self.lexical.len()
    }

    /// `name` is bound in a frame opened within the innermost open node
    /// body.
    pub open spec fn reassignable(&self, name: Seq<char>) -> bool {
        exists|k: int| self.boundary() <= k < self.frames().len() && #[trigger] lookup(self.frames()[k], name) is Some
    }

    /// `s1` is `s0` with `name` set to `value` in the innermost frame
    /// within the current node body that binds it; all else is unchanged.
    pub open spec fn reassigned(s0: Scope, s1: Scope, name: Seq<char>, value: Value) -> bool {
        &&& s1.defs() == s0.defs()
        &&& s1.boundaries() == s0.boundaries()
        &&& s1.frames().len() == s0.frames().len()
        &&& exists|k: int|
            {
                &&& s0.boundary() <= k < s0.frames().len()
                &&& lookup(s0.frames()[k], name) is Some
                &&& forall|j: int| k < j < s0.frames().len() ==> lookup(#[trigger] s0.frames()[j], name) is None
                &&& forall|j: int| 0 <= j < s0.frames().len() && j != k ==> s1.frames()[j] == #[trigger] s0.frames()[j]
                &&& forall|x: Seq<char>|
                    #[trigger] lookup(s1.frames()[k], x) == if x == name {
                        Some(value)
                    } else {
                        lookup(s0.frames()[k], x)
                    }
            }
    }

    /// `key = value` in a node body: reassigns `key` where it is a local
    /// declared within that body (`None`), and otherwise leaves the scope
    /// as it is and hands the value back to be emitted as a leaf.
    pub fn assign_leaf(&mut self, key: &String, value: Value) -> (r: Option<Value>)
        requires
            old(self).wf(),
            old(self).boundary() <= old(self).frames().len(),
        ensures
            final(self).wf(),
            r is None <==> old(self).reassignable(key@),
            r is None ==> Scope::reassigned(*old(self), *final(self), key@, value),
            r matches Some(v) ==> v == value && *final(self) == *old(self),
    {
        if self.is_reassignable_local(key) {
            self.reassign_local(key, value);
            None
        } else {
            Some(value)
        }
    }

    /// Whether `name` is a local declared within the innermost open node
    /// body (no `@` definition, no sibling leaf, no host value, and no
    /// local from further out). `key = value` reassigns such a local
    /// instead of emitting a leaf: that is what lets `n = n + 1` advance a
    /// `while` loop, while `service { port = port }` still emits a `port`
    /// leaf when `port` is a parameter of the enclosing `fn`.
    pub fn is_reassignable_local(&self, name: &String) -> (b: bool)
        requires
            self.wf(),
            self.boundary() <= self.frames().len(),
        ensures
            b == self.reassignable(name@),
    {
        let boundary = if self.node_boundaries.len() == 0 {
            0
        } else {
            self.node_boundaries[self.node_boundaries.len() - 1]
        };
        let mut k = boundary;
        while k < self.lexical.len()
            invariant
                boundary == self.boundary(),
                boundary <= k <= self.lexical@.len(),
                forall|j: int| boundary <= j < k ==> #[trigger] lookup(self.frames()[j], name@) is None,
            decreases self.lexical@.len() - k,
        {
            assert(self.frames()[k as int] == self.lexical@[k as int]@);
            if find_name(&self.lexical[k], name).is_some() {
                return true;
            }
            k += 1;
        }
        false
    }

    /// Updates the local `name` in the innermost frame within the current
    /// node body that binds it.
    pub fn reassign_local(&mut self, name: &String, value: Value)
        requires
            old(self).wf(),
            old(self).boundary() <= old(self).frames().len(),
            old(self).reassignable(name@),
        ensures
            final(self).wf(),
            Scope::reassigned(*old(self), *final(self), name@, value),
    {
        let boundary = if self.node_boundaries.len() == 0 {
            0
        } else {
            self.node_boundaries[self.node_boundaries.len() - 1]
        };
        let mut k = self.lexical.len();
        while k > boundary
            invariant
                boundary == old(self).boundary(),
                *self == *old(self),
                boundary <= k <= self.lexical@.len(),
                forall|j: int| k <= j < self.lexical@.len() ==> #[trigger] lookup(self.frames()[j], name@) is None,
            decreases k,
        {
            assert(self.frames()[k - 1] == self.lexical@[k - 1]@);
            if find_name(&self.lexical[k - 1], name).is_some() {
                let mut frame = self.lexical.remove(k - 1);
                declare(&mut frame, name.clone(), value);
                self.lexical.insert(k - 1, frame);
                proof {
                    let kk = k - 1;
                    assert forall|j: int|
                        0 <= j < old(self).frames().len() && j != kk implies #[trigger] self.frames()[j]
                        == old(self).frames()[j] by {
                        assert(self.lexical@[j] == old(self).lexical@[j]);
                    }
                    assert(self.frames()[kk] == self.lexical@[kk]@);
                }
                return;
            }
            k -= 1;
        }
        assert(false);
    }

    /// Defines `@name = value`.
    pub fn set_vardef(&mut self, name: String, value: Value)
        ensures
            forall|k: Seq<char>|
                lookup(final(self).defs(), k) == if k == name@ {
                    Some(value)
                } else {
                    lookup(old(self).defs(), k)
                },
            final(self).frames() == old(self).frames(),
            final(self).boundaries() == old(self).boundaries(),
            final(self).wf() == old(self).wf(),
    {
        declare(&mut self.vardefs, name, value);
    }

    /// Every name bound anywhere, with what it resolves to (innermost
    /// first): what a `script { }` block reads as its globals. Writes in
    /// the script do not flow back.
    pub fn all_visible(&self, host: &Vec<(String, Value)>) -> (r: Vec<(String, Value)>)
        ensures
            forall|k: Seq<char>| #[trigger] same_option(resolve(self.frames(), self.defs(), host@, k), lookup(r@, k)),
    {
        let mut out: Vec<(String, Value)> = Vec::new();
        let mut k = self.lexical.len();
        assert(self.frames().take(k as int) =~= self.frames());
        while k > 0
            invariant
                k <= self.lexical@.len(),
                forall|x: Seq<char>|
                    #[trigger] same_option(
                        frames_lookup(self.frames().skip(k as int), x),
                        lookup(out@, x),
                    ),
            decreases k,
        {
            let ghost prev = out@;
            proof {
                assert(self.frames()[k - 1] == self.lexical@[k - 1]@);
            }
            add_missing(&mut out, &self.lexical[k - 1]);
            proof {
                assert forall|x: Seq<char>|
                    #[trigger] same_option(frames_lookup(self.frames().skip(k - 1), x), lookup(out@, x)) by {
                    lemma_frames_lookup_skip(self.frames(), k - 1, x);
                    assert(same_option(frames_lookup(self.frames().skip(k as int), x), lookup(prev, x)));
                    if lookup(prev, x) is Some {
                        assert(lookup(out@, x) == lookup(prev, x));
                    } else {
                        assert(same_option(lookup(self.lexical@[k - 1]@, x), lookup(out@, x)));
                    }
                }
            }
            k -= 1;
        }
        assert(self.frames().skip(0) =~= self.frames());
        let ghost after_frames = out@;
        add_missing(&mut out, &self.vardefs);
        let ghost after_defs = out@;
        add_missing(&mut out, host);
        proof {
            assert forall|x: Seq<char>|
                #[trigger] same_option(resolve(self.frames(), self.defs(), host@, x), lookup(out@, x)) by {
                assert(same_option(frames_lookup(self.frames(), x), lookup(after_frames, x)));
                if lookup(after_frames, x) is Some {
                    assert(lookup(after_defs, x) == lookup(after_frames, x));
                    assert(lookup(out@, x) == lookup(after_defs, x));
                } else {
                    assert(same_option(lookup(self.vardefs@, x), lookup(after_defs, x)));
                    if lookup(after_defs, x) is Some {
                        assert(lookup(out@, x) == lookup(after_defs, x));
                    } else {
                        assert(same_option(lookup(host@, x), lookup(out@, x)));
                    }
                }
            }
        }
        out
    }

    /// What `name` resolves to, with `host` the host-registered values.
    pub fn lookup(&self, name: &String, host: &Vec<(String, Value)>) -> (r: Option<Value>)
        ensures
            same_option(resolve(self.frames(), self.defs(), host@, name@), r),
    {
        let mut k = self.lexical.len();
        assert(self.frames().take(k as int) =~= self.frames());
        while k > 0
            invariant
                k <= self.lexical@.len(),
                frames_lookup(self.frames(), name@) == frames_lookup(
                    self.frames().take(k as int),
                    name@,
                ),
            decreases k,
        {
            let ghost pre = self.frames().take(k as int);
            assert(pre.drop_last() =~= self.frames().take(k - 1));
            assert(pre.last() == self.lexical@[k - 1]@);
            match find_name(&self.lexical[k - 1], name) {
                Some(i) => {
                    return Some(self.lexical[k - 1][i].1.clone());
                },
                None => {},
            }
            k -= 1;
        }
        assert(self.frames().take(0).len() == 0);
        match find_name(&self.vardefs, name) {
            Some(i) => {
                return Some(self.vardefs[i].1.clone());
            },
            None => {},
        }
        match find_name(host, name) {
            Some(i) => Some(host[i].1.clone()),
            None => None,
        }
    }
}

/// Resolution over the frames from `i` on is the binding of frame `i`,
/// unless an inner frame binds the name.
proof fn lemma_frames_lookup_skip(frames: Seq<Seq<(String, Value)>>, i: int, x: Seq<char>)
    requires
        0 <= i < frames.len(),
    ensures
        frames_lookup(frames.skip(i), x) == match frames_lookup(frames.skip(i + 1), x) {
            Some(v) => Some(v),
            None => lookup(frames[i], x),
        },
    decreases frames.len(),
{
    let s = frames.skip(i);
    reveal_with_fuel(frames_lookup, 2);
    if i == frames.len() - 1 {
        assert(s.drop_last().len() == 0);
        assert(s.last() == frames[i]);
        assert(frames.skip(i + 1).len() == 0);
    } else {
        lemma_frames_lookup_skip(frames.drop_last(), i, x);
        assert(s.drop_last() =~= frames.drop_last().skip(i));
        assert(s.last() == frames.last());
        let t = frames.skip(i + 1);
        assert(t.drop_last() =~= frames.drop_last().skip(i + 1));
        assert(t.last() == frames.last());
        assert(frames.drop_last()[i] == frames[i]);
    }
}

/// Adds, for every name of `src` that `out` does not bind, a copy of its
/// binding.
fn add_missing(out: &mut Vec<(String, Value)>, src: &Vec<(String, Value)>)
    ensures
        forall|x: Seq<char>| lookup(old(out)@, x) is Some ==> #[trigger] lookup(final(out)@, x) == lookup(old(out)@, x),
        forall|x: Seq<char>| lookup(old(out)@, x) is None ==> #[trigger] same_option(lookup(src@, x), lookup(final(out)@, x)),
{
    let mut i: usize = 0;
    assert(src@.take(0).len() == 0);
    while i < src.len()
        invariant
            i <= src@.len(),
            forall|x: Seq<char>| lookup(old(out)@, x) is Some ==> #[trigger] lookup(out@, x) == lookup(old(out)@, x),
            forall|x: Seq<char>|
                lookup(old(out)@, x) is None ==> #[trigger] same_option(
                    lookup(src@.take(i as int), x),
                    lookup(out@, x),
                ),
        decreases src@.len() - i,
    {
        let ghost prev = out@;
        let ghost n = src@[i as int].0@;
        match find_name(out, &src[i].0) {
            Some(_) => {},
            None => {
                let v = src[i].1.clone();
                declare(out, src[i].0.clone(), v);
            },
        }
        i += 1;
        proof {
            assert forall|x: Seq<char>|
                lookup(old(out)@, x) is None implies #[trigger] same_option(
                    lookup(src@.take(i as int), x),
                    lookup(out@, x),
                ) by {
                crate::schema::lemma_lookup_take_step(src@, i - 1, x);
                assert(same_option(lookup(src@.take(i - 1), x), lookup(prev, x)));
            }
        }
    }
    assert(src@.take(src@.len() as int) =~= src@);
}

/// A binding in the innermost frame is what a name resolves to, whatever
/// outer frames, `@` definitions or host values say.
pub proof fn lemma_innermost_binding_wins(
    frames: Seq<Seq<(String, Value)>>,
    vardefs: Seq<(String, Value)>,
    host: Seq<(String, Value)>,
    name: Seq<char>,
    v: Value,
)
    requires
        frames.len() > 0,
        lookup(frames.last(), name) == Some(v),
    ensures
        resolve(frames, vardefs, host, name) == Some(v),
{
}

/// An `@` definition is visible wherever no lexical binding of the same
/// name shadows it, before any host value of that name.
pub proof fn lemma_definition_visible_unless_shadowed(
    frames: Seq<Seq<(String, Value)>>,
    vardefs: Seq<(String, Value)>,
    host: Seq<(String, Value)>,
    name: Seq<char>,
    v: Value,
)
    requires
        frames_lookup(frames, name) is None,
        lookup(vardefs, name) == Some(v),
    ensures
        resolve(frames, vardefs, host, name) == Some(v),
{
}

/// Closing a frame forgets exactly the bindings it held: opening a frame,
/// binding in it, and closing it leaves resolution as it was.
pub proof fn lemma_closed_frame_forgotten(
    frames: Seq<Seq<(String, Value)>>,
    frame: Seq<(String, Value)>,
    vardefs: Seq<(String, Value)>,
    host: Seq<(String, Value)>,
    name: Seq<char>,
)
    ensures
        resolve(frames.push(frame).drop_last(), vardefs, host, name) == resolve(
            frames,
            vardefs,
            host,
            name,
        ),
{
    assert(frames.push(frame).drop_last() =~= frames);
}

} // verus!
