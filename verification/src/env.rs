use vstd::prelude::*;

use crate::error::{result_view, HError, HErrorView};
use crate::expr::{owned, text_eq, Expr, ExprView, Method, MethodView};
use crate::text::chars_to_string;

verus! {

/// A reference to an environment frame of a `Store`; `None` stands for no environment.
#[derive(Debug, Clone, Copy, PartialEq, Eq, Structural)]
pub struct EnvRef {
    pub frame: Option<usize>,
}

/// An environment frame: its variables, the methods defined in it, and the
/// frame it extends.
#[derive(Debug)]
pub struct Env {
    vars: Vec<(String, Expr)>,
    methods: Vec<Method>,
    enclosing: EnvRef,
}

/// The frames of a running program, and the text it has printed.
///
/// A frame only ever extends a frame that was stored before it, so following
/// the enclosing frames always ends.
#[derive(Debug)]
pub struct Store {
    frames: Vec<Env>,
    output: Vec<char>,
}

pub struct FrameView {
    pub vars: Seq<(Seq<char>, ExprView)>,
    pub methods: Seq<MethodView>,
    pub enclosing: Option<usize>,
}

pub struct StoreView {
    pub frames: Seq<FrameView>,
    pub output: Seq<char>,
}

pub open spec fn vars_view(v: Seq<(String, Expr)>) -> Seq<(Seq<char>, ExprView)> {
    v.map_values(|p: (String, Expr)| (p.0@, p.1@))
}

pub open spec fn methods_view(v: Seq<Method>) -> Seq<MethodView> {
    v.map_values(|m: Method| m@)
}

impl View for Env {
    type V = FrameView;

    closed spec fn view(&self) -> FrameView {
        FrameView { vars: vars_view(self.vars@), methods: methods_view(self.methods@), enclosing: self.enclosing.frame }
    }
}

pub open spec fn frames_view(v: Seq<Env>) -> Seq<FrameView> {
    v.map_values(|e: Env| e@)
}

impl View for Store {
    type V = StoreView;

    closed spec fn view(&self) -> StoreView {
        StoreView { frames: frames_view(self.frames@), output: self.output@ }
    }
}

/// Every frame extends an earlier one, or none.
pub open spec fn frames_ok(frames: Seq<FrameView>) -> bool {
    forall|i: int| 0 <= i < frames.len() ==> (#[trigger] frames[i].enclosing matches Some(j) ==> j < i)
}

/// The reference names no frame, or a stored one.
pub open spec fn ref_ok(frames: Seq<FrameView>, r: EnvRef) -> bool {
    r.frame matches Some(i) ==> i < frames.len()
}

// ---------------------------------------------------------------------------
// Variables of a frame
// ---------------------------------------------------------------------------

/// `i` is the first position of a variable named `key`.
pub open spec fn first_var(vars: Seq<(Seq<char>, ExprView)>, key: Seq<char>, i: int) -> bool {
    &&& 0 <= i < vars.len()
    &&& vars[i].0 == key
    &&& forall|j: int| 0 <= j < i ==> #[trigger] vars[j].0 != key
}

/// The value of the variable named `key`.
pub open spec fn var_lookup(vars: Seq<(Seq<char>, ExprView)>, key: Seq<char>) -> Option<ExprView> {
    if exists|i: int| first_var(vars, key, i) {
        Some(vars[choose|i: int| first_var(vars, key, i)].1)
    } else {
        None
    }
}

/// The variables after defining `key` as `v`: the variable's value replaced, or
/// a new variable at the end.
pub open spec fn var_define(vars: Seq<(Seq<char>, ExprView)>, key: Seq<char>, v: ExprView) -> Seq<(Seq<char>, ExprView)> {
    if exists|i: int| first_var(vars, key, i) {
        vars.update(choose|i: int| first_var(vars, key, i), (key, v))
    } else {
        vars.push((key, v))
    }
}

pub proof fn lemma_first_var_unique(vars: Seq<(Seq<char>, ExprView)>, key: Seq<char>, i: int, j: int)
    requires
        first_var(vars, key, i),
        first_var(vars, key, j),
    ensures
        i == j,
{
    if i < j {
        assert(vars[i].0 != key);
    } else if j < i {
        assert(vars[j].0 != key);
    }
}

/// The frame with `key` defined as `v`.
pub open spec fn frame_define(f: FrameView, key: Seq<char>, v: ExprView) -> FrameView {
    FrameView { vars: var_define(f.vars, key, v), ..f }
}

/// The frame with one more method.
pub open spec fn frame_add_method(f: FrameView, m: MethodView) -> FrameView {
    FrameView { methods: f.methods.push(m), ..f }
}

// ---------------------------------------------------------------------------
// Variables along a chain of frames
// ---------------------------------------------------------------------------

/// The value of `key` seen from frame `i`: its own variable, else the value
/// seen from the frame it extends.
pub open spec fn chain_lookup(frames: Seq<FrameView>, i: int, key: Seq<char>) -> Result<ExprView, HErrorView>
    decreases i,
{
    if !(0 <= i < frames.len()) {
        Err(HErrorView::EnvironmentNotFound)
    } else {
        match var_lookup(frames[i].vars, key) {
            Some(v) => Ok(v),
            None => match frames[i].enclosing {
                Some(j) => if j < i {
                    chain_lookup(frames, j as int, key)
                } else {
                    Err(HErrorView::UnboundVar(key))
                },
                None => Err(HErrorView::UnboundVar(key)),
            },
        }
    }
}

/// The value of `key` in the environment `env`.
pub open spec fn env_lookup(st: StoreView, env: EnvRef, key: Seq<char>) -> Result<ExprView, HErrorView> {
    match env.frame {
        None => Err(HErrorView::EnvironmentNotFound),
        Some(i) => chain_lookup(st.frames, i as int, key),
    }
}

/// The frame along the chain from `i` that holds a variable `key`.
pub open spec fn set_frame(frames: Seq<FrameView>, i: int, key: Seq<char>) -> Option<int>
    decreases i,
{
    if !(0 <= i < frames.len()) {
        None
    } else if var_lookup(frames[i].vars, key) is Some {
        Some(i)
    } else {
        match frames[i].enclosing {
            Some(j) => if j < i {
                set_frame(frames, j as int, key)
            } else {
                None
            },
            None => None,
        }
    }
}

pub proof fn lemma_set_frame(frames: Seq<FrameView>, i: int, key: Seq<char>)
    ensures
        set_frame(frames, i, key) matches Some(f) ==> 0 <= f <= i && f < frames.len() && var_lookup(
            frames[f].vars,
            key,
        ) is Some,
    decreases i,
{
    if 0 <= i < frames.len() && var_lookup(frames[i].vars, key) is None {
        match frames[i].enclosing {
            Some(j) => if j < i {
                lemma_set_frame(frames, j as int, key);
            },
            None => {},
        }
    }
}

/// The frames after setting `key` to `v` from frame `i`, and the value it had.
pub open spec fn chain_set(frames: Seq<FrameView>, i: int, key: Seq<char>, v: ExprView) -> Result<
    (Seq<FrameView>, ExprView),
    HErrorView,
> {
    match set_frame(frames, i, key) {
        Some(f) => Ok(
            (frames.update(f, frame_define(frames[f], key, v)), var_lookup(frames[f].vars, key)->0),
        ),
        None => Err(HErrorView::SetUninitializedVar(key)),
    }
}

/// The store after setting `key` to `v` in the environment `env`, and the value it had.
pub open spec fn env_set(st: StoreView, env: EnvRef, key: Seq<char>, v: ExprView) -> Result<(StoreView, ExprView), HErrorView> {
    match env.frame {
        None => Err(HErrorView::EnvironmentNotFound),
        Some(i) => if i < st.frames.len() {
            match chain_set(st.frames, i as int, key, v) {
                Ok((frames, old)) => Ok((StoreView { frames, ..st }, old)),
                Err(e) => Err(e),
            }
        } else {
            Err(HErrorView::EnvironmentNotFound)
        },
    }
}

/// The store after defining `key` as `v` in the frame of `env`.
pub open spec fn env_define(st: StoreView, env: EnvRef, key: Seq<char>, v: ExprView) -> Result<StoreView, HErrorView> {
    match env.frame {
        Some(i) => if i < st.frames.len() {
            Ok(StoreView { frames: st.frames.update(i as int, frame_define(st.frames[i as int], key, v)), ..st })
        } else {
            Err(HErrorView::EnvironmentNotFound)
        },
        None => Err(HErrorView::EnvironmentNotFound),
    }
}

/// The store after defining the method `m` in the frame of `env`.
pub open spec fn env_add_method(st: StoreView, env: EnvRef, m: MethodView) -> Result<StoreView, HErrorView> {
    match env.frame {
        Some(i) => if i < st.frames.len() {
            Ok(StoreView { frames: st.frames.update(i as int, frame_add_method(st.frames[i as int], m)), ..st })
        } else {
            Err(HErrorView::EnvironmentNotFound)
        },
        None => Err(HErrorView::EnvironmentNotFound),
    }
}

/// The methods named `name` among `ms`, in order.
pub open spec fn methods_named(ms: Seq<MethodView>, name: Seq<char>) -> Seq<MethodView>
    decreases ms.len(),
{
    if ms.len() == 0 {
        Seq::empty()
    } else {
        methods_named(ms.drop_last(), name) + if ms.last().id == name {
            seq![ms.last()]
        } else {
            Seq::empty()
        }
    }
}

/// The methods named `name` seen from frame `i`: those of the frame, in the
/// order they were defined, then those seen from the frame it extends.
pub open spec fn chain_methods(frames: Seq<FrameView>, i: int, name: Seq<char>) -> Seq<MethodView>
    decreases i,
{
    if !(0 <= i < frames.len()) {
        Seq::empty()
    } else {
        methods_named(frames[i].methods, name) + match frames[i].enclosing {
            Some(j) => if j < i {
                chain_methods(frames, j as int, name)
            } else {
                Seq::empty()
            },
            None => Seq::empty(),
        }
    }
}

pub open spec fn env_methods(st: StoreView, env: EnvRef, name: Seq<char>) -> Seq<MethodView> {
    match env.frame {
        Some(i) => chain_methods(st.frames, i as int, name),
        None => Seq::empty(),
    }
}

} // verus!

verus! {

pub proof fn lemma_frames_view(v: Seq<Env>)
    ensures
        frames_view(v).len() == v.len(),
        forall|i: int| 0 <= i < v.len() ==> #[trigger] frames_view(v)[i] == v[i]@,
{
}

pub proof fn lemma_vars_view(v: Seq<(String, Expr)>)
    ensures
        vars_view(v).len() == v.len(),
        forall|i: int| 0 <= i < v.len() ==> #[trigger] vars_view(v)[i] == (v[i].0@, v[i].1@),
{
}

/// The position of the first variable named `key`.
fn find_var(vars: &Vec<(String, Expr)>, key: &String) -> (r: Option<usize>)
    ensures
        r matches Some(i) ==> first_var(vars_view(vars@), key@, i as int),
        r is None ==> !exists|i: int| first_var(vars_view(vars@), key@, i),
{
    let ghost vs = vars_view(vars@);
    proof {
        lemma_vars_view(vars@);
    }
    let mut i: usize = 0;
    while i < vars.len()
        invariant
            vs == vars_view(vars@),
            vs.len() == vars@.len(),
            i <= vars@.len(),
            forall|j: int| 0 <= j < i ==> #[trigger] vs[j].0 != key@,
        decreases vars@.len() - i,
    {
        if text_eq(&vars[i].0, key) {
            return Some(i);
        }
        i = i + 1;
    }
    None
}

/// The value of the variable named `key` in a frame, when it has one.
fn frame_var(frame: &Env, key: &String) -> (r: Option<Expr>)
    ensures
        r is Some <==> var_lookup(frame@.vars, key@) is Some,
        r matches Some(x) ==> var_lookup(frame@.vars, key@) == Some(x@),
{
    proof {
        lemma_vars_view(frame.vars@);
    }
    match find_var(&frame.vars, key) {
        Some(k) => {
            proof {
                let c = choose|j: int| first_var(frame@.vars, key@, j);
                lemma_first_var_unique(frame@.vars, key@, k as int, c);
            }
            Some(frame.vars[k].1.copy())
        },
        None => None,
    }
}

impl Store {
    /// The store's invariant: every frame extends an earlier one.
    pub open spec fn wf(self) -> bool {
        frames_ok(self@.frames)
    }

    /// A store with no frames and nothing printed.
    pub fn new() -> (s: Store)
        ensures
            s.wf(),
            s@.frames == Seq::<FrameView>::empty(),
            s@.output == Seq::<char>::empty(),
    {
        let s = Store { frames: Vec::new(), output: Vec::new() };
        assert(s@.frames =~= Seq::<FrameView>::empty());
        s
    }

    /// The number of frames.
    pub fn frame_count(&self) -> (n: usize)
        ensures
            n == self@.frames.len(),
    {
        self.frames.len()
    }

    /// The text printed so far.
    pub fn output(&self) -> (s: String)
        ensures
            s@ == self@.output,
    {
        chars_to_string(&self.output)
    }

    /// The text printed so far, which the store then forgets.
    pub fn take_output(&mut self) -> (s: String)
        ensures
            s@ == old(self)@.output,
            final(self)@.output == Seq::<char>::empty(),
            final(self)@.frames == old(self)@.frames,
    {
        let s = chars_to_string(&self.output);
        self.output = Vec::new();
        s
    }

    /// Appends text to the printed output.
    pub(crate) fn print(&mut self, text: &Vec<char>)
        ensures
            final(self)@.output == old(self)@.output + text@,
            final(self)@.frames == old(self)@.frames,
    {
        let mut i: usize = 0;
        while i < text.len()
            invariant
                i <= text@.len(),
                self@.frames == old(self)@.frames,
                self@.output == old(self)@.output + text@.subrange(0, i as int),
            decreases text@.len() - i,
        {
            self.output.push(text[i]);
            i = i + 1;
            assert(self@.output =~= old(self)@.output + text@.subrange(0, i as int));
        }
        assert(text@.subrange(0, i as int) =~= text@);
    }

    /// Stores a frame; the reference to it.
    pub(crate) fn push_frame(&mut self, env: Env) -> (r: EnvRef)
        requires
            old(self).wf(),
            ref_ok(old(self)@.frames, EnvRef { frame: env@.enclosing }),
        ensures
            final(self).wf(),
            final(self)@.frames == old(self)@.frames.push(env@),
            final(self)@.output == old(self)@.output,
            r.frame == Some(old(self)@.frames.len() as usize),
    {
        proof {
            lemma_frames_view(self.frames@);
        }
        let n = self.frames.len();
        self.frames.push(env);
        proof {
            lemma_frames_view(self.frames@);
            assert(self@.frames =~= old(self)@.frames.push(env@));
        }
        EnvRef { frame: Some(n) }
    }

    /// Forgets the last frame.
    pub(crate) fn pop_frame(&mut self)
        requires
            old(self).wf(),
            old(self)@.frames.len() > 0,
        ensures
            final(self).wf(),
            final(self)@.frames == old(self)@.frames.drop_last(),
            final(self)@.output == old(self)@.output,
    {
        proof {
            lemma_frames_view(self.frames@);
        }
        self.frames.pop();
        proof {
            lemma_frames_view(self.frames@);
            assert(self@.frames =~= old(self)@.frames.drop_last());
        }
    }

    /// The value of `key` seen from frame `i` (see `chain_lookup`).
    fn chain_get(&self, i: usize, key: &String) -> (r: Result<Expr, HError>)
        requires
            self.wf(),
            i < self@.frames.len(),
        ensures
            result_view(r) == chain_lookup(self@.frames, i as int, key@),
    {
        let ghost fs = self@.frames;
        proof {
            lemma_frames_view(self.frames@);
        }
        let mut cur = i;
        loop
            invariant
                self.wf(),
                fs == self@.frames,
                fs.len() == self.frames@.len(),
                forall|k: int| 0 <= k < fs.len() ==> #[trigger] fs[k] == self.frames@[k]@,
                cur < fs.len(),
                chain_lookup(fs, i as int, key@) == chain_lookup(fs, cur as int, key@),
            decreases cur,
        {
            let frame = &self.frames[cur];
            match frame_var(frame, key) {
                Some(x) => {
                    return Ok(x);
                },
                None => {},
            }
            match frame.enclosing.frame {
                Some(j) => {
                    if j < cur {
                        cur = j;
                    } else {
                        return Err(HError::UnboundVar(key.clone()));
                    }
                },
                None => {
                    return Err(HError::UnboundVar(key.clone()));
                },
            }
        }
    }

    /// The frame along the chain from `i` that holds `key` (see `set_frame`).
    fn find_set_frame(&self, i: usize, key: &String) -> (r: Option<usize>)
        requires
            self.wf(),
            i < self@.frames.len(),
        ensures
            r == match set_frame(self@.frames, i as int, key@) {
                Some(f) => Some(f as usize),
                None => None::<usize>,
            },
            r matches Some(f) ==> f < self@.frames.len(),
    {
        let ghost fs = self@.frames;
        proof {
            lemma_frames_view(self.frames@);
        }
        let mut cur = i;
        loop
            invariant
                self.wf(),
                fs == self@.frames,
                fs.len() == self.frames@.len(),
                forall|k: int| 0 <= k < fs.len() ==> #[trigger] fs[k] == self.frames@[k]@,
                cur < fs.len(),
                set_frame(fs, i as int, key@) == set_frame(fs, cur as int, key@),
            decreases cur,
        {
            let frame = &self.frames[cur];
            proof {
                lemma_vars_view(frame.vars@);
            }
            match find_var(&frame.vars, key) {
                Some(k) => {
                    return Some(cur);
                },
                None => {},
            }
            match frame.enclosing.frame {
                Some(j) => {
                    if j < cur {
                        cur = j;
                    } else {
                        return None;
                    }
                },
                None => {
                    return None;
                },
            }
        }
    }

    /// Defines `key` as `value` in frame `i`.
    fn define_in(&mut self, i: usize, key: &String, value: Expr)
        requires
            old(self).wf(),
            i < old(self)@.frames.len(),
        ensures
            final(self).wf(),
            final(self)@.frames == old(self)@.frames.update(i as int, frame_define(old(self)@.frames[i as int], key@, value@)),
            final(self)@.output == old(self)@.output,
    {
        proof {
            lemma_frames_view(self.frames@);
        }
        let mut frame = Env::new();
        std::mem::swap(&mut frame, &mut self.frames[i]);
        let ghost before = frame@;
        frame.define_string(key.clone(), value);
        std::mem::swap(&mut frame, &mut self.frames[i]);
        proof {
            lemma_frames_view(self.frames@);
            assert(self@.frames =~= old(self)@.frames.update(i as int, frame_define(old(self)@.frames[i as int], key@, value@)));
        }
    }

    /// Adds a method to frame `i`.
    fn add_method_in(&mut self, i: usize, m: Method)
        requires
            old(self).wf(),
            i < old(self)@.frames.len(),
        ensures
            final(self).wf(),
            final(self)@.frames == old(self)@.frames.update(i as int, frame_add_method(old(self)@.frames[i as int], m@)),
            final(self)@.output == old(self)@.output,
    {
        proof {
            lemma_frames_view(self.frames@);
        }
        let mut frame = Env::new();
        std::mem::swap(&mut frame, &mut self.frames[i]);
        frame.defm(m);
        std::mem::swap(&mut frame, &mut self.frames[i]);
        proof {
            lemma_frames_view(self.frames@);
            assert(self@.frames =~= old(self)@.frames.update(i as int, frame_add_method(old(self)@.frames[i as int], m@)));
        }
    }
}

/// The methods named `name` among `ms` (see `methods_named`).
fn named_methods(ms: &Vec<Method>, name: &String, out: &mut Vec<Method>)
    ensures
        methods_view(final(out)@) == methods_view(old(out)@) + methods_named(methods_view(ms@), name@),
{
    let ghost mv = methods_view(ms@);
    let ghost start = methods_view(out@);
    let mut i: usize = 0;
    proof {
        assert(methods_named(mv.subrange(0, 0), name@) =~= Seq::<MethodView>::empty());
        assert(start + Seq::<MethodView>::empty() =~= start);
    }
    while i < ms.len()
        invariant
            mv == methods_view(ms@),
            i <= ms@.len(),
            methods_view(out@) == start + methods_named(mv.subrange(0, i as int), name@),
        decreases ms@.len() - i,
    {
        let ghost before = methods_view(out@);
        let ghost p = mv.subrange(0, i + 1);
        proof {
            assert(p.drop_last() =~= mv.subrange(0, i as int));
            assert(p.last() == ms@[i as int]@);
        }
        if text_eq(&ms[i].id, name) {
            out.push(ms[i].copy());
            proof {
                assert(methods_view(out@) =~= before.push(ms@[i as int]@));
                assert(methods_view(out@) =~= start + methods_named(p, name@));
            }
        } else {
            proof {
                assert(methods_view(out@) =~= start + methods_named(p, name@));
            }
        }
        i = i + 1;
    }
    assert(mv.subrange(0, i as int) =~= mv);
}

impl Store {
    /// The methods named `name` seen from the environment `env` (see `env_methods`).
    pub fn methods_for(&self, env: EnvRef, name: &String) -> (r: Vec<Method>)
        requires
            self.wf(),
        ensures
            methods_view(r@) == env_methods(self@, env, name@),
    {
        let mut out: Vec<Method> = Vec::new();
        proof {
            assert(methods_view(out@) =~= Seq::<MethodView>::empty());
            lemma_frames_view(self.frames@);
        }
        let i = match env.frame {
            Some(i) => i,
            None => {
                return out;
            },
        };
        if i >= self.frames.len() {
            return out;
        }
        let ghost fs = self@.frames;
        let mut cur = i;
        proof {
            assert(Seq::<MethodView>::empty() + chain_methods(fs, i as int, name@) =~= chain_methods(fs, i as int, name@));
        }
        loop
            invariant
                self.wf(),
                fs == self@.frames,
                fs.len() == self.frames@.len(),
                forall|k: int| 0 <= k < fs.len() ==> #[trigger] fs[k] == self.frames@[k]@,
                cur < fs.len(),
                env.frame == Some(i),
                methods_view(out@) + chain_methods(fs, cur as int, name@) == chain_methods(fs, i as int, name@),
            decreases cur,
        {
            let ghost before = methods_view(out@);
            let frame = &self.frames[cur];
            named_methods(&frame.methods, name, &mut out);
            match frame.enclosing.frame {
                Some(j) => {
                    if j < cur {
                        proof {
                            assert(before + chain_methods(fs, cur as int, name@) =~= methods_view(out@) + chain_methods(fs, j as int, name@));
                        }
                        cur = j;
                    } else {
                        proof {
                            assert(before + chain_methods(fs, cur as int, name@) =~= methods_view(out@));
                        }
                        return out;
                    }
                },
                None => {
                    proof {
                        assert(before + chain_methods(fs, cur as int, name@) =~= methods_view(out@));
                    }
                    return out;
                },
            }
        }
    }
}

impl Env {
    /// An empty frame that extends no environment.
    pub fn new() -> (e: Env)
        ensures
            e@.vars == Seq::<(Seq<char>, ExprView)>::empty(),
            e@.methods == Seq::<MethodView>::empty(),
            e@.enclosing is None,
    {
        let e = Env { vars: Vec::new(), methods: Vec::new(), enclosing: EnvRef { frame: None } };
        assert(e@.vars =~= Seq::<(Seq<char>, ExprView)>::empty());
        assert(e@.methods =~= Seq::<MethodView>::empty());
        e
    }

    /// An empty frame that extends `env_ref`.
    pub fn extend(env_ref: EnvRef) -> (e: Env)
        ensures
            e@.vars == Seq::<(Seq<char>, ExprView)>::empty(),
            e@.methods == Seq::<MethodView>::empty(),
            e@.enclosing == env_ref.frame,
    {
        let e = Env { vars: Vec::new(), methods: Vec::new(), enclosing: env_ref };
        assert(e@.vars =~= Seq::<(Seq<char>, ExprView)>::empty());
        assert(e@.methods =~= Seq::<MethodView>::empty());
        e
    }

    /// A frame with the given variables and methods, extending no environment.
    pub(crate) fn from_parts(vars: Vec<(String, Expr)>, methods: Vec<Method>) -> (e: Env)
        ensures
            e@.vars == vars_view(vars@),
            e@.methods == methods_view(methods@),
            e@.enclosing is None,
    {
        Env { vars, methods, enclosing: EnvRef { frame: None } }
    }

    /// The environment this frame extends.
    pub fn enclosing(&self) -> (r: EnvRef)
        ensures
            r.frame == self@.enclosing,
    {
        self.enclosing
    }

    fn define_string(&mut self, key: String, value: Expr)
        ensures
            final(self)@ == frame_define(old(self)@, key@, value@),
    {
        proof {
            lemma_vars_view(self.vars@);
        }
        match find_var(&self.vars, &key) {
            Some(k) => {
                proof {
                    let c = choose|j: int| first_var(old(self)@.vars, key@, j);
                    lemma_first_var_unique(old(self)@.vars, key@, k as int, c);
                }
                self.vars.set(k, (key, value));
            },
            None => {
                self.vars.push((key, value));
            },
        }
        proof {
            lemma_vars_view(self.vars@);
            assert(self@.vars =~= var_define(old(self)@.vars, key@, value@));
        }
    }

    /// Defines `key` as `value` in this frame, replacing its value if it has one.
    pub fn define(&mut self, key: &str, value: Expr)
        ensures
            final(self)@ == frame_define(old(self)@, key@, value@),
    {
        self.define_string(owned(key), value);
    }

    /// Adds a method to this frame.
    pub fn defm(&mut self, m: Method)
        ensures
            final(self)@ == frame_add_method(old(self)@, m@),
    {
        self.methods.push(m);
        assert(self@.methods =~= old(self)@.methods.push(m@));
    }

    /// Defines every variable of `env` here, in order, and adds its methods.
    pub fn merge(&mut self, env: Env)
        ensures
            final(self)@.vars == merge_vars(old(self)@.vars, env@.vars),
            final(self)@.methods == old(self)@.methods + env@.methods,
            final(self)@.enclosing == old(self)@.enclosing,
    {
        let Env { vars, methods, enclosing: _ } = env;
        let ghost ov = vars_view(vars@);
        let ghost om = methods_view(methods@);
        proof {
            lemma_vars_view(vars@);
        }
        let mut i: usize = 0;
        let n = vars.len();
        while i < n
            invariant
                n == vars@.len(),
                ov == vars_view(vars@),
                ov.len() == n,
                i <= n,
                self@.vars == merge_vars(old(self)@.vars, ov.subrange(0, i as int)),
                self@.methods == old(self)@.methods,
                self@.enclosing == old(self)@.enclosing,
            decreases n - i,
        {
            let key = vars[i].0.clone();
            let value = vars[i].1.copy();
            proof {
                assert(ov[i as int] == (key@, value@));
            }
            self.define_string(key, value);
            proof {
                let p = ov.subrange(0, i + 1);
                assert(p.drop_last() =~= ov.subrange(0, i as int));
            }
            i = i + 1;
        }
        assert(ov.subrange(0, n as int) =~= ov);
        let mut methods = methods;
        let ghost m0 = self@.methods;
        let mut k: usize = 0;
        let mcount = methods.len();
        let mut taken: Vec<Method> = Vec::new();
        while k < mcount
            invariant
                mcount == methods@.len(),
                om == methods_view(methods@),
                k <= mcount,
                self@.methods == m0 + om.subrange(0, k as int),
                self@.vars == merge_vars(old(self)@.vars, ov),
                self@.enclosing == old(self)@.enclosing,
            decreases mcount - k,
        {
            let m = methods[k].copy();
            self.defm(m);
            proof {
                assert(self@.methods =~= m0 + om.subrange(0, k + 1));
            }
            k = k + 1;
        }
        assert(om.subrange(0, mcount as int) =~= om);
    }

    /// The value of `key`: this frame's variable, else its value in the
    /// environment this frame extends.
    pub fn get(&self, store: &Store, key: &str) -> (r: Result<Expr, HError>)
        requires
            store.wf(),
        ensures
            result_view(r) == frame_get(store@, self@, key@),
    {
        let k = owned(key);
        match frame_var(self, &k) {
            Some(x) => Ok(x),
            None => match self.enclosing.frame {
                Some(j) => {
                    if j < store.frames.len() {
                        proof {
                            lemma_frames_view(store.frames@);
                        }
                        store.chain_get(j, &k)
                    } else {
                        Err(HError::UnboundVar(k))
                    }
                },
                None => Err(HError::UnboundVar(k)),
            },
        }
    }

    /// Sets `key` to `value` where it is defined: here, else in the environment
    /// this frame extends; the value it had.
    pub fn set(&mut self, store: &mut Store, key: &str, value: Expr) -> (r: Result<Expr, HError>)
        requires
            old(store).wf(),
        ensures
            final(store).wf(),
            final(store)@.output == old(store)@.output,
            match frame_set(old(store)@, old(self)@, key@, value@) {
                Ok((st, f, v)) => r matches Ok(x) && x@ == v && final(store)@ == st && final(self)@ == f,
                Err(e) => r matches Err(x) && x@ == e && final(store)@ == old(store)@ && final(self)@ == old(self)@,
            },
    {
        let k = owned(key);
        match frame_var(self, &k) {
            Some(old_value) => {
                self.define_string(k, value);
                Ok(old_value)
            },
            None => match self.enclosing.frame {
                Some(j) => {
                    if j < store.frames.len() {
                        EnvRef { frame: Some(j) }.set(store, key, value)
                    } else {
                        Err(HError::SetUninitializedVar(k))
                    }
                },
                None => Err(HError::SetUninitializedVar(k)),
            },
        }
    }

    /// Stores this frame; the reference to it.
    pub fn into_ref(self, store: &mut Store) -> (r: EnvRef)
        requires
            old(store).wf(),
            ref_ok(old(store)@.frames, EnvRef { frame: self@.enclosing }),
        ensures
            final(store).wf(),
            final(store)@.frames == old(store)@.frames.push(self@),
            final(store)@.output == old(store)@.output,
            r.frame == Some(old(store)@.frames.len() as usize),
    {
        store.push_frame(self)
    }
}

/// The variables after defining each variable of `other` in order.
pub open spec fn merge_vars(vars: Seq<(Seq<char>, ExprView)>, other: Seq<(Seq<char>, ExprView)>) -> Seq<(Seq<char>, ExprView)>
    decreases other.len(),
{
    if other.len() == 0 {
        vars
    } else {
        var_define(merge_vars(vars, other.drop_last()), other.last().0, other.last().1)
    }
}

/// The value of `key` seen from a frame that extends the store's frames.
pub open spec fn frame_get(st: StoreView, f: FrameView, key: Seq<char>) -> Result<ExprView, HErrorView> {
    match var_lookup(f.vars, key) {
        Some(v) => Ok(v),
        None => match f.enclosing {
            Some(j) => if j < st.frames.len() {
                chain_lookup(st.frames, j as int, key)
            } else {
                Err(HErrorView::UnboundVar(key))
            },
            None => Err(HErrorView::UnboundVar(key)),
        },
    }
}

/// Setting `key` from a frame that extends the store's frames: the store, the
/// frame, and the value the variable had.
pub open spec fn frame_set(st: StoreView, f: FrameView, key: Seq<char>, v: ExprView) -> Result<
    (StoreView, FrameView, ExprView),
    HErrorView,
> {
    match var_lookup(f.vars, key) {
        Some(old) => Ok((st, frame_define(f, key, v), old)),
        None => match f.enclosing {
            Some(j) => if j < st.frames.len() {
                match env_set(st, EnvRef { frame: Some(j as usize) }, key, v) {
                    Ok((st2, old)) => Ok((st2, f, old)),
                    Err(e) => Err(e),
                }
            } else {
                Err(HErrorView::SetUninitializedVar(key))
            },
            None => Err(HErrorView::SetUninitializedVar(key)),
        },
    }
}

impl EnvRef {
    /// The reference to no environment.
    pub fn nil() -> (r: EnvRef)
        ensures
            r.frame is None,
    {
        EnvRef { frame: None }
    }

    /// Stores `env`; the reference to it.
    pub fn new(store: &mut Store, env: Env) -> (r: EnvRef)
        requires
            old(store).wf(),
            ref_ok(old(store)@.frames, EnvRef { frame: env@.enclosing }),
        ensures
            final(store).wf(),
            final(store)@.frames == old(store)@.frames.push(env@),
            final(store)@.output == old(store)@.output,
            r.frame == Some(old(store)@.frames.len() as usize),
    {
        store.push_frame(env)
    }

    /// Whether the reference names a stored frame.
    pub fn is_some(&self, store: &Store) -> (r: bool)
        ensures
            r == (self.frame matches Some(i) && i < store@.frames.len()),
    {
        proof {
            lemma_frames_view(store.frames@);
        }
        match self.frame {
            Some(i) => i < store.frames.len(),
            None => false,
        }
    }

    /// Another reference to the same frame.
    pub fn clone_ref(&self) -> (r: EnvRef)
        ensures
            r == *self,
    {
        *self
    }

    /// The value of `id` in this environment (see `env_lookup`).
    pub fn get(&self, store: &Store, id: &str) -> (r: Result<Expr, HError>)
        requires
            store.wf(),
        ensures
            result_view(r) == env_lookup(store@, *self, id@),
    {
        proof {
            lemma_frames_view(store.frames@);
        }
        match self.frame {
            None => Err(HError::EnvironmentNotFound),
            Some(i) => {
                if i < store.frames.len() {
                    store.chain_get(i, &owned(id))
                } else {
                    Err(HError::EnvironmentNotFound)
                }
            },
        }
    }

    /// Sets `key` to `value` where it is defined (see `env_set`); the value it had.
    pub fn set(&self, store: &mut Store, key: &str, value: Expr) -> (r: Result<Expr, HError>)
        requires
            old(store).wf(),
        ensures
            final(store).wf(),
            final(store)@.frames.len() == old(store)@.frames.len(),
            final(store)@.output == old(store)@.output,
            match env_set(old(store)@, *self, key@, value@) {
                Ok((st, v)) => r matches Ok(x) && x@ == v && final(store)@ == st,
                Err(e) => r matches Err(x) && x@ == e && final(store)@ == old(store)@,
            },
    {
        proof {
            lemma_frames_view(store.frames@);
        }
        let k = owned(key);
        match self.frame {
            None => Err(HError::EnvironmentNotFound),
            Some(i) => {
                if i < store.frames.len() {
                    match store.find_set_frame(i, &k) {
                        Some(f) => {
                            proof {
                                lemma_frames_view(store.frames@);
                            }
                            let old_value = frame_var(&store.frames[f], &k);
                            proof {
                                assert(store@.frames[f as int] == store.frames@[f as int]@);
                                lemma_set_frame(store@.frames, i as int, key@);
                            }
                            store.define_in(f, &k, value);
                            match old_value {
                                Some(x) => Ok(x),
                                None => Ok(Expr::Nil),
                            }
                        },
                        None => Err(HError::SetUninitializedVar(k)),
                    }
                } else {
                    Err(HError::EnvironmentNotFound)
                }
            },
        }
    }

    /// Defines `key` as `value` in this environment's own frame.
    pub fn define(&self, store: &mut Store, key: &str, value: Expr) -> (r: Result<(), HError>)
        requires
            old(store).wf(),
        ensures
            final(store).wf(),
            match env_define(old(store)@, *self, key@, value@) {
                Ok(st) => r is Ok && final(store)@ == st,
                Err(e) => r matches Err(x) && x@ == e && final(store)@ == old(store)@,
            },
    {
        proof {
            lemma_frames_view(store.frames@);
        }
        match self.frame {
            Some(i) => {
                if i < store.frames.len() {
                    store.define_in(i, &owned(key), value);
                    Ok(())
                } else {
                    Err(HError::EnvironmentNotFound)
                }
            },
            None => Err(HError::EnvironmentNotFound),
        }
    }

    /// Adds a method to this environment's own frame.
    pub fn defm(&self, store: &mut Store, m: Method) -> (r: Result<(), HError>)
        requires
            old(store).wf(),
        ensures
            final(store).wf(),
            match env_add_method(old(store)@, *self, m@) {
                Ok(st) => r is Ok && final(store)@ == st,
                Err(e) => r matches Err(x) && x@ == e && final(store)@ == old(store)@,
            },
    {
        proof {
            lemma_frames_view(store.frames@);
        }
        match self.frame {
            Some(i) => {
                if i < store.frames.len() {
                    store.add_method_in(i, m);
                    Ok(())
                } else {
                    Err(HError::EnvironmentNotFound)
                }
            },
            None => Err(HError::EnvironmentNotFound),
        }
    }
}

} // verus!

verus! {

/// `std::cell::RefCell`, which this library only carries through.
#[verifier::external_type_specification]
#[verifier::external_body]
#[verifier::reject_recursive_types(T)]
pub struct ExRefCell<T: ?Sized>(std::cell::RefCell<T>);

/// Calls `std::cell::RefCell::new`. Nothing is stated of the cell: what a
/// `RefCell` holds is not visible to these contracts.
#[verifier::external_body]
fn ref_cell_new<T>(x: T) -> (r: std::cell::RefCell<T>) {
    std::cell::RefCell::new(x)
}

/// A shared cell holding `x`, as environment frames are shared where they
/// are not held in a `Store`.
pub fn new_rc_ref_cell<T>(x: T) -> (r: std::rc::Rc<std::cell::RefCell<T>>) {
    std::rc::Rc::new(ref_cell_new(x))
}

} // verus!
