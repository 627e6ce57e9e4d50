//! Name resolution: a single scope (`LEnv`) and the arena of scopes
//! (`Scopes`) whose parent links give lexical nesting.
//!
//! A scope holds its bindings as a list of (name, value) entries with
//! pairwise distinct names; a parent link is the index of an earlier frame in
//! the arena, so the chain is acyclic by construction.

use vstd::prelude::*;
use crate::lval::{LVal, LValV, lval_eq, eq_val, find_pair, lookup_pairs, view_pairs, view_seq,
    lemma_view_pairs, lemma_view_pairs_push, clone_pairs};

verus! {

/// The error text for a name bound nowhere in the scope chain.
pub open spec fn msg_unbound(key: Seq<char>) -> Seq<char> {
    "unbound symbol: "@ + key
}

/// The error value for a name bound nowhere in the scope chain.
pub fn unbound_error(key: &String) -> (r: LVal)
    ensures
        r@ == LValV::Error(msg_unbound(key@)),
{
    let mut m = "unbound symbol: ".to_owned();
    m.append(key.as_str());
    LVal::err(m)
}

/// A `None` lookup means the key is on no entry.
pub proof fn lemma_lookup_pairs_present(s: Seq<(Seq<char>, LValV)>, key: Seq<char>)
    ensures
        lookup_pairs(s, key) is None <==> forall|j: int| 0 <= j < s.len() ==> (#[trigger] s[j]).0
            != key,
    decreases s,
{
    if s.len() > 0 {
        lemma_lookup_pairs_present(s.drop_last(), key);
        assert(s.last() == s[s.len() - 1]);
        if lookup_pairs(s, key) is None {
            assert forall|j: int| 0 <= j < s.len() implies (#[trigger] s[j]).0 != key by {
                if j < s.len() - 1 {
                    assert(s.drop_last()[j] == s[j]);
                    assert(s.drop_last()[j].0 != key);
                }
            }
        } else {
            if s.last().0 == key {
                assert(s[s.len() - 1].0 == key);
            } else {
                let d = s.drop_last();
                assert(exists|j: int| 0 <= j < d.len() && (#[trigger] d[j]).0 == key);
                let w = choose|j: int| 0 <= j < d.len() && (#[trigger] d[j]).0 == key;
                assert(d[w] == s[w]);
                assert(s[w].0 == key);
            }
        }
    }
}

/// Updating the only entry that carries `key` changes the lookup of `key`
/// alone.
pub proof fn lemma_lookup_update(s: Seq<(Seq<char>, LValV)>, i: int, key: Seq<char>, v: LValV)
    requires
        0 <= i < s.len(),
        s[i].0 == key,
        forall|j: int| 0 <= j < s.len() && j != i ==> (#[trigger] s[j]).0 != key,
    ensures
        forall|k2: Seq<char>| #[trigger]
            lookup_pairs(s.update(i, (key, v)), k2) == if k2 == key {
                Option::Some(v)
            } else {
                lookup_pairs(s, k2)
            },
    decreases s,
{
    let t = s.update(i, (key, v));
    assert(t.len() == s.len());
    assert(t.last() == if i == s.len() - 1 {
        (key, v)
    } else {
        s.last()
    });
    if i == s.len() - 1 {
        assert(t.drop_last() =~= s.drop_last());
        assert forall|k2: Seq<char>| #[trigger]
            lookup_pairs(t, k2) == if k2 == key {
                Option::Some(v)
            } else {
                lookup_pairs(s, k2)
            } by {
            if k2 != key {
                lemma_lookup_pairs_present(s.drop_last(), key);
                assert(lookup_pairs(t, k2) == lookup_pairs(t.drop_last(), k2));
            }
        }
    } else {
        assert(s.len() >= 2);
        assert(t.drop_last() =~= s.drop_last().update(i, (key, v)));
        assert forall|j: int| 0 <= j < s.drop_last().len() && j != i implies (
        #[trigger] s.drop_last()[j]).0 != key by {
            assert(s.drop_last()[j] == s[j]);
        }
        assert(s.drop_last()[i] == s[i]);
        lemma_lookup_update(s.drop_last(), i, key, v);
        assert(s.last() == s[s.len() - 1]);
        assert(s.last().0 != key);
        assert forall|k2: Seq<char>| #[trigger]
            lookup_pairs(t, k2) == if k2 == key {
                Option::Some(v)
            } else {
                lookup_pairs(s, k2)
            } by {
            assert(lookup_pairs(s.drop_last().update(i, (key, v)), k2) == if k2 == key {
                Option::Some(v)
            } else {
                lookup_pairs(s.drop_last(), k2)
            });
        }
    }
}

/// `view_pairs` commutes with `update`.
pub proof fn lemma_view_pairs_update(s: Seq<(String, LVal)>, i: int, name: String, v: LVal)
    requires
        0 <= i < s.len(),
    ensures
        view_pairs(s.update(i, (name, v))) == view_pairs(s).update(i, (name@, v@)),
{
    let t = s.update(i, (name, v));
    lemma_view_pairs(s);
    lemma_view_pairs(t);
    assert forall|j: int| 0 <= j < s.len() implies view_pairs(t)[j] == view_pairs(s).update(
        i,
        (name@, v@),
    )[j] by {
        assert(view_pairs(t)[j] == (t[j].0@, t[j].1@));
        assert(view_pairs(s)[j] == (s[j].0@, s[j].1@));
        if j != i {
            assert(t[j] == s[j]);
        }
    }
    assert(view_pairs(t) =~= view_pairs(s).update(i, (name@, v@)));
}

/// First binding, front to back, whose value is structurally equal to `v`.
pub open spec fn reverse_lookup(s: Seq<(Seq<char>, LValV)>, v: LValV) -> Option<Seq<char>>
    decreases s,
{
    if s.len() == 0 {
        Option::None
    } else if eq_val(s.first().1, v) {
        Option::Some(s.first().0)
    } else {
        reverse_lookup(s.drop_first(), v)
    }
}

/// One scope: a local binding list and an optional parent frame index.
pub struct LEnv {
    pub parent: Option<usize>,
    pub entries: Vec<(String, LVal)>,
}

impl LEnv {
    /// The bindings of this scope, in binding order.
    pub open spec fn contents(&self) -> Seq<(Seq<char>, LValV)> {
        view_pairs(self.entries@)
    }

    /// Entry names are pairwise distinct.
    pub open spec fn wf(&self) -> bool {
        forall|i: int, j: int|
            0 <= i < j < self.contents().len() ==> (#[trigger] self.contents()[i]).0 != (
            #[trigger] self.contents()[j]).0
    }

    /// A fresh scope: empty, with no parent.
    pub fn new() -> (r: LEnv)
        ensures
            r.parent is None,
            r.contents() == Seq::<(Seq<char>, LValV)>::empty(),
            r.wf(),
    {
        LEnv { parent: Option::None, entries: Vec::new() }
    }

    /// Bind `key` to `value` in this scope alone, replacing any previous
    /// binding of the same name.
    pub fn put(&mut self, key: LVal, value: LVal)
        requires
            old(self).wf(),
            key@ is Sym,
        ensures
            final(self).wf(),
            final(self).parent == old(self).parent,
            final(self).contents() == crate::lval::put_pairs(
                old(self).contents(),
                key@->Sym_0,
                value@,
            ),
            forall|k2: Seq<char>| #[trigger]
                lookup_pairs(final(self).contents(), k2) == if k2 == key@->Sym_0 {
                    Option::Some(value@)
                } else {
                    lookup_pairs(old(self).contents(), k2)
                },
    {
        let name: String = match key {
            LVal::Sym(s) => s,
            _ => unreached(),
        };
        let ghost oldc = self.contents();
        proof {
            lemma_view_pairs(self.entries@);
        }
        match find_pair(&self.entries, &name) {
            Option::Some(i) => {
                proof {
                    assert(oldc[i as int] == (self.entries@[i as int].0@, self.entries@[
                    i as int].1@));
                    assert(oldc[i as int].0 == name@);
                    assert forall|j: int|
                        0 <= j < oldc.len() && j != i implies (#[trigger] oldc[j]).0 != name@ by {
                        if j < i {
                            assert(oldc[j].0 != oldc[i as int].0);
                        } else {
                            assert(oldc[i as int].0 != oldc[j].0);
                        }
                    }
                    lemma_lookup_update(oldc, i as int, name@, value@);
                }
                let ghost oldentries = self.entries@;
                let ghost namev = name@;
                let ghost p = (name, value);
                self.entries[i] = (name, value);
                proof {
                    assert(self.entries@ == oldentries.update(i as int, p));
                    lemma_view_pairs_update(oldentries, i as int, p.0, p.1);
                    assert(self.contents() =~= oldc.update(i as int, (namev, value@)));
                    assert forall|a: int, b: int|
                        0 <= a < b < self.contents().len() implies (
                    #[trigger] self.contents()[a]).0 != (#[trigger] self.contents()[b]).0 by {
                        assert(self.contents()[a].0 == oldc[a].0);
                        assert(self.contents()[b].0 == oldc[b].0);
                    }
                }
            },
            Option::None => {
                proof {
                    lemma_lookup_pairs_present(oldc, name@);
                }
                let ghost oldentries = self.entries@;
                let ghost namev = name@;
                let ghost p = (name, value);
                self.entries.push((name, value));
                proof {
                    assert(self.entries@ == oldentries.push(p));
                    lemma_view_pairs_push(oldentries, p.0, p.1);
                    assert(self.contents() == view_pairs(oldentries).push((namev, value@)));
                    assert forall|k2: Seq<char>| #[trigger]
                        lookup_pairs(self.contents(), k2) == if k2 == namev {
                            Option::Some(value@)
                        } else {
                            lookup_pairs(oldc, k2)
                        } by {
                        assert(self.contents().last() == (namev, value@));
                        assert(self.contents().drop_last() =~= oldc);
                    }
                    assert forall|a: int, b: int|
                        0 <= a < b < self.contents().len() implies (
                    #[trigger] self.contents()[a]).0 != (#[trigger] self.contents()[b]).0 by {
                        if b < self.contents().len() - 1 {
                            assert(self.contents()[a] == oldc[a]);
                            assert(self.contents()[b] == oldc[b]);
                        } else {
                            assert(self.contents()[a] == oldc[a]);
                            assert(self.contents()[b].0 == namev);
                        }
                    }
                }
            },
        }
    }

    /// Look `key` up in this scope alone; a miss is the unbound-symbol error.
    pub fn get(&self, key: &String) -> (r: LVal)
        ensures
            r@ == match lookup_pairs(self.contents(), key@) {
                Option::Some(v) => v,
                Option::None => LValV::Error(msg_unbound(key@)),
            },
    {
        match find_pair(&self.entries, key) {
            Option::Some(i) => self.entries[i].1.clone(),
            Option::None => unbound_error(key),
        }
    }

    /// The name of a binding whose value is structurally equal to `search`,
    /// if this scope has one.
    pub fn look_up(&self, search: &LVal) -> (r: Option<String>)
        ensures
            match r {
                Option::Some(name) => reverse_lookup(self.contents(), search@) == Option::Some(
                    name@,
                ),
                Option::None => reverse_lookup(self.contents(), search@) is None,
            },
    {
        reverse_find(&self.entries, search)
    }
}

/// The name of the first binding, front to back, whose value is structurally
/// equal to `search`.
pub fn reverse_find(entries: &Vec<(String, LVal)>, search: &LVal) -> (r: Option<String>)
    ensures
        match r {
            Option::Some(name) => reverse_lookup(view_pairs(entries@), search@) == Option::Some(
                name@,
            ),
            Option::None => reverse_lookup(view_pairs(entries@), search@) is None,
        },
{
    let ghost ps = view_pairs(entries@);
    proof {
        lemma_view_pairs(entries@);
    }
    let mut i: usize = 0;
    proof {
        assert(ps.skip(0) =~= ps);
    }
    while i < entries.len()
        invariant
            i <= entries@.len(),
            ps == view_pairs(entries@),
            ps.len() == entries@.len(),
            forall|k: int|
                0 <= k < entries@.len() ==> ps[k] == (
                #[trigger] entries@[k].0@,
                entries@[k].1@,
                ),
            reverse_lookup(ps.skip(i as int), search@) == reverse_lookup(ps, search@),
        decreases entries@.len() - i,
    {
        proof {
            assert(ps[i as int] == (entries@[i as int].0@, entries@[i as int].1@));
            assert(ps.skip(i as int).first() == ps[i as int]);
            assert(ps.skip(i as int).drop_first() =~= ps.skip(i + 1));
        }
        if lval_eq(&entries[i].1, search) {
            return Option::Some(entries[i].0.clone());
        }
        proof {
            assert(!eq_val(ps[i as int].1, search@));
            assert(reverse_lookup(ps.skip(i as int), search@) == reverse_lookup(
                ps.skip(i + 1),
                search@,
            ));
        }
        i = i + 1;
    }
    proof {
        assert(ps.skip(ps.len() as int) =~= Seq::<(Seq<char>, LValV)>::empty());
    }
    Option::None
}

/// The arena of scopes.  Frame 0 is the global scope; a call pushes a frame
/// whose parent link points at the scope active at the call site.
pub struct Scopes {
    pub frames: Vec<LEnv>,
}

/// Lookup along the parent chain starting at frame `i`.
pub open spec fn chain_lookup(frames: Seq<LEnv>, i: int, key: Seq<char>) -> Option<LValV>
    decreases i,
{
    if i < 0 || i >= frames.len() {
        Option::None
    } else {
        match lookup_pairs(frames[i].contents(), key) {
            Option::Some(v) => Option::Some(v),
            Option::None => match frames[i].parent {
                Option::Some(p) => if p < i {
                    chain_lookup(frames, p as int, key)
                } else {
                    Option::None
                },
                Option::None => Option::None,
            },
        }
    }
}

/// The index of the outermost (global) scope on the parent chain of frame
/// `i`.
pub open spec fn root_of(frames: Seq<LEnv>, i: int) -> int
    decreases i,
{
    if i < 0 || i >= frames.len() {
        i
    } else {
        match frames[i].parent {
            Option::Some(p) => if p < i {
                root_of(frames, p as int)
            } else {
                i
            },
            Option::None => i,
        }
    }
}

impl Scopes {
    /// Every frame is well formed and every parent link points at an earlier
    /// frame.
    pub open spec fn wf(&self) -> bool {
        forall|i: int|
            0 <= i < self.frames@.len() ==> (#[trigger] self.frames@[i]).wf() && match self.frames@[
                i].parent {
                Option::Some(p) => p < i,
                Option::None => true,
            }
    }

    /// An arena holding `root` as its only, global, scope.
    pub fn new(root: LEnv) -> (r: Scopes)
        requires
            root.wf(),
            root.parent is None,
        ensures
            r.wf(),
            r.frames@.len() == 1,
            r.frames@[0] == root,
    {
        let mut frames: Vec<LEnv> = Vec::new();
        frames.push(root);
        Scopes { frames }
    }

    /// Look `key` up in frame `env` and then along its parent chain; a miss
    /// everywhere is the unbound-symbol error.
    pub fn get(&self, env: usize, key: &String) -> (r: LVal)
        requires
            self.wf(),
            env < self.frames@.len(),
        ensures
            r@ == match chain_lookup(self.frames@, env as int, key@) {
                Option::Some(v) => v,
                Option::None => LValV::Error(msg_unbound(key@)),
            },
        decreases env,
    {
        match find_pair(&self.frames[env].entries, key) {
            Option::Some(i) => {
                proof {
                    lemma_view_pairs(self.frames@[env as int].entries@);
                }
                self.frames[env].entries[i].1.clone()
            },
            Option::None => {
                let parent = self.frames[env].parent;
                match parent {
                    Option::Some(p) => self.get(p, key),
                    Option::None => unbound_error(key),
                }
            },
        }
    }

    /// Bind `key` to `value` in frame `env` alone.
    pub fn put(&mut self, env: usize, key: LVal, value: LVal)
        requires
            old(self).wf(),
            env < old(self).frames@.len(),
            key@ is Sym,
        ensures
            final(self).wf(),
            final(self).frames@.len() == old(self).frames@.len(),
            forall|j: int|
                0 <= j < old(self).frames@.len() && j != env ==> final(self).frames@[j] == old(
                    self,
                ).frames@[j],
            final(self).frames@[env as int].parent == old(self).frames@[env as int].parent,
            forall|k2: Seq<char>| #[trigger]
                lookup_pairs(final(self).frames@[env as int].contents(), k2) == if k2
                == key@->Sym_0 {
                    Option::Some(value@)
                } else {
                    lookup_pairs(old(self).frames@[env as int].contents(), k2)
                },
    {
        let ghost oldframes = self.frames@;
        let mut frame = self.frames.remove(env);
        frame.put(key, value);
        self.frames.insert(env, frame);
        proof {
            assert(self.frames@ =~= oldframes.update(env as int, self.frames@[env as int]));
        }
    }

    /// Bind `key` to `value` in the outermost scope on the parent chain of
    /// frame `env`.
    pub fn def(&mut self, env: usize, key: LVal, value: LVal)
        requires
            old(self).wf(),
            env < old(self).frames@.len(),
            key@ is Sym,
        ensures
            final(self).wf(),
            final(self).frames@.len() == old(self).frames@.len(),
            ({
                let r = root_of(old(self).frames@, env as int);
                &&& 0 <= r <= env
                &&& forall|j: int|
                    0 <= j < old(self).frames@.len() && j != r ==> final(self).frames@[j] == old(
                        self,
                    ).frames@[j]
                &&& final(self).frames@[r].parent == old(self).frames@[r].parent
                &&& forall|k2: Seq<char>| #[trigger]
                    lookup_pairs(final(self).frames@[r].contents(), k2) == if k2 == key@->Sym_0 {
                        Option::Some(value@)
                    } else {
                        lookup_pairs(old(self).frames@[r].contents(), k2)
                    }
            }),
    {
        let root = self.find_root(env);
        self.put(root, key, value);
    }

    /// The index of the outermost scope on the parent chain of frame `env`.
    pub fn find_root(&self, env: usize) -> (r: usize)
        requires
            self.wf(),
            env < self.frames@.len(),
        ensures
            r == root_of(self.frames@, env as int),
            r <= env,
        decreases env,
    {
        let parent = self.frames[env].parent;
        match parent {
            Option::Some(p) => self.find_root(p),
            Option::None => env,
        }
    }

    /// Add a scope whose parent is frame `parent`; its index is returned.
    pub fn push_frame(&mut self, entries: LEnv, parent: usize) -> (r: usize)
        requires
            old(self).wf(),
            entries.wf(),
            parent < old(self).frames@.len(),
        ensures
            final(self).wf(),
            r == old(self).frames@.len(),
            final(self).frames@.len() == old(self).frames@.len() + 1,
            forall|j: int|
                0 <= j < old(self).frames@.len() ==> final(self).frames@[j] == old(self).frames@[j],
            final(self).frames@[r as int].entries == entries.entries,
            final(self).frames@[r as int].parent == Option::Some(parent),
    {
        let r = self.frames.len();
        let ghost oldframes = self.frames@;
        let ghost ec = entries.contents();
        let frame = LEnv { parent: Option::Some(parent), entries: entries.entries };
        proof {
            assert(frame.contents() == ec);
            assert(frame.wf());
        }
        self.frames.push(frame);
        proof {
            assert forall|i: int|
                0 <= i < self.frames@.len() implies (#[trigger] self.frames@[i]).wf()
                && match self.frames@[i].parent {
                Option::Some(p) => p < i,
                Option::None => true,
            } by {
                if i < oldframes.len() {
                    assert(self.frames@[i] == oldframes[i]);
                } else {
                    assert(self.frames@[i] == frame);
                }
            }
        }
        r
    }

    /// Drop every scope from index `len` upward.
    pub fn truncate_frames(&mut self, len: usize)
        requires
            old(self).wf(),
        ensures
            final(self).wf(),
            final(self).frames@ == old(self).frames@.take(
                vstd::math::min(len as int, old(self).frames@.len() as int),
            ),
    {
        let ghost oldframes = self.frames@;
        self.frames.truncate(len);
        proof {
            assert forall|i: int|
                0 <= i < self.frames@.len() implies (#[trigger] self.frames@[i]).wf()
                && match self.frames@[i].parent {
                Option::Some(p) => p < i,
                Option::None => true,
            } by {
                assert(self.frames@[i] == oldframes[i]);
            }
        }
    }
}

/// The naming context a value is displayed against: a scope chain in the
/// arena, or a function's own binding list.
pub enum DispCtx {
    Chain(int),
    Local(Seq<(Seq<char>, LValV)>),
}

/// Lookup in a display context.
pub open spec fn ctx_lookup(frames: Seq<LEnv>, ctx: DispCtx, name: Seq<char>) -> Option<LValV> {
    match ctx {
        DispCtx::Chain(i) => chain_lookup(frames, i, name),
        DispCtx::Local(pairs) => lookup_pairs(pairs, name),
    }
}

/// Reverse lookup in a display context (local bindings only).
pub open spec fn ctx_reverse(frames: Seq<LEnv>, ctx: DispCtx, v: LValV) -> Option<Seq<char>> {
    match ctx {
        DispCtx::Chain(i) => if 0 <= i < frames.len() {
            reverse_lookup(frames[i].contents(), v)
        } else {
            Option::None
        },
        DispCtx::Local(pairs) => reverse_lookup(pairs, v),
    }
}

/// Rendering against a naming context, for conventional printing: a symbol
/// shows the value it resolves to (or its own name when unbound, bound to an
/// error, or when the resolution budget runs out); an evaluable list shows
/// its children space-joined in `(...)`; a function shows its formals plainly
/// and its body against its own bindings; a builtin shows the name it is
/// bound to, or a generic marker; everything else shows as its plain
/// rendering.
pub open spec fn display_v(frames: Seq<LEnv>, ctx: DispCtx, v: LValV, depth: nat) -> Seq<char>
    decreases depth, crate::eval::height_v(v), 0int, 0int,
{
    match v {
        LValV::Sym(name) => match ctx_lookup(frames, ctx, name) {
            Option::Some(w) => if w is Error || depth == 0 {
                name
            } else {
                display_v(frames, ctx, w, (depth - 1) as nat)
            },
            Option::None => name,
        },
        LValV::Sexpr(items) => "("@ + display_all(frames, ctx, items, depth) + ")"@,
        LValV::Function { env, formals, body } => "\\ {"@ + crate::lval::show_all(formals)
            + "} {"@ + display_all(frames, DispCtx::Local(env), body, depth) + "}"@,
        LValV::Builtin(b) => match ctx_reverse(frames, ctx, v) {
            Option::Some(name) => "<builtin: '"@ + name + "'>"@,
            Option::None => "<function>"@,
        },
        _ => crate::lval::show(v),
    }
}

/// Space-joined rendering of a sequence of values against a context.
pub open spec fn display_all(
    frames: Seq<LEnv>,
    ctx: DispCtx,
    items: Seq<LValV>,
    depth: nat,
) -> Seq<char>
    decreases depth, crate::eval::height_seq(items), 1int, items.len(),
{
    if items.len() == 0 {
        Seq::empty()
    } else if items.len() == 1 {
        display_v(frames, ctx, items[0], depth)
    } else {
        display_all(frames, ctx, items.drop_last(), depth) + " "@ + display_v(
            frames,
            ctx,
            items.last(),
            depth,
        )
    }
}

/// An executable naming context; see `DispCtx`.
#[derive(Clone, Copy)]
pub enum ECtx<'a> {
    Chain(usize),
    Local(&'a Vec<(String, LVal)>),
}

impl<'a> ECtx<'a> {
    /// The context this stands for.
    pub open spec fn ctx(self) -> DispCtx {
        match self {
            ECtx::Chain(i) => DispCtx::Chain(i as int),
            ECtx::Local(entries) => DispCtx::Local(view_pairs(entries@)),
        }
    }

    /// A chain context's index is a valid frame.
    pub open spec fn valid(self, frames: Seq<LEnv>) -> bool {
        match self {
            ECtx::Chain(i) => i < frames.len(),
            ECtx::Local(_) => true,
        }
    }
}

/// Rendering against a naming context; see `display_v`.
#[verifier::loop_isolation(false)]
fn display_exec(v: &LVal, scopes: &Scopes, ctx: ECtx<'_>, depth: u64) -> (r: String)
    requires
        scopes.wf(),
        ctx.valid(scopes.frames@),
    ensures
        r@ == display_v(scopes.frames@, ctx.ctx(), v@, depth as nat),
    decreases depth, crate::eval::height_v(v@), 0int, 0int,
{
    match v {
        LVal::Sym(name) => {
            let resolved = match ctx {
                ECtx::Chain(i) => scopes.get(i, name),
                ECtx::Local(entries) => {
                    match find_pair(entries, name) {
                        Option::Some(j) => {
                            proof {
                                lemma_view_pairs(entries@);
                            }
                            entries[j].1.clone()
                        },
                        Option::None => unbound_error(name),
                    }
                },
            };
            let is_error = match &resolved {
                LVal::Error(_) => true,
                _ => false,
            };
            if is_error || depth == 0 {
                name.clone()
            } else {
                display_exec(&resolved, scopes, ctx, depth - 1)
            }
        },
        LVal::Sexpr(items) => {
            proof {
                crate::lval::lemma_view_seq(items@);
            }
            let mut out = "(".to_owned();
            out.append(display_vec(items, scopes, ctx, depth).as_str());
            out.append(")");
            out
        },
        LVal::Function { env, formals, body } => {
            let mut out = "\\ {".to_owned();
            out.append(crate::lval::show_vec(formals).as_str());
            out.append("} {");
            out.append(display_vec(body, scopes, ECtx::Local(env), depth).as_str());
            out.append("}");
            out
        },
        LVal::Builtin(_) => {
            let found = match ctx {
                ECtx::Chain(i) => scopes.frames[i].look_up(v),
                ECtx::Local(entries) => reverse_find(entries, v),
            };
            match found {
                Option::Some(name) => {
                    let mut out = "<builtin: '".to_owned();
                    out.append(name.as_str());
                    out.append("'>");
                    out
                },
                Option::None => "<function>".to_owned(),
            }
        },
        other => other.to_show_string(),
    }
}

/// Space-joined rendering of a vector of values against a context; see
/// `display_all`.
#[verifier::loop_isolation(false)]
fn display_vec(items: &Vec<LVal>, scopes: &Scopes, ctx: ECtx<'_>, depth: u64) -> (r: String)
    requires
        scopes.wf(),
        ctx.valid(scopes.frames@),
    ensures
        r@ == display_all(scopes.frames@, ctx.ctx(), view_seq(items@), depth as nat),
    decreases depth, crate::eval::height_seq(view_seq(items@)), 1int, items@.len(),
{
    let ghost vs = view_seq(items@);
    proof {
        crate::lval::lemma_view_seq(items@);
        crate::eval::lemma_height_seq(vs);
    }
    let mut acc = String::new();
    let mut i: usize = 0;
    while i < items.len()
        invariant
            i <= items@.len(),
            vs == view_seq(items@),
            vs.len() == items@.len(),
            forall|j: int| 0 <= j < items@.len() ==> vs[j] == #[trigger] items@[j]@,
            forall|j: int|
                0 <= j < items@.len() ==> crate::eval::height_v(#[trigger] vs[j])
                    <= crate::eval::height_seq(vs),
            scopes.wf(),
            ctx.valid(scopes.frames@),
            acc@ == display_all(scopes.frames@, ctx.ctx(), vs.take(i as int), depth as nat),
        decreases items@.len() - i,
    {
        if i > 0 {
            acc.append(" ");
        }
        let shown = display_exec(&items[i], scopes, ctx, depth);
        acc.append(shown.as_str());
        proof {
            assert(vs.take(i + 1).drop_last() =~= vs.take(i as int));
            assert(vs.take(i + 1).last() == vs[i as int]);
            if i == 0 {
                assert(acc@ =~= display_all(scopes.frames@, ctx.ctx(), vs.take(1), depth as nat));
            } else {
                assert(acc@ =~= display_all(
                    scopes.frames@,
                    ctx.ctx(),
                    vs.take(i as int),
                    depth as nat,
                ) + " "@ + display_v(scopes.frames@, ctx.ctx(), vs[i as int], depth as nat));
            }
        }
        i = i + 1;
    }
    proof {
        assert(vs.take(items@.len() as int) =~= vs);
    }
    acc
}

impl LVal {
    /// Rendering against the scope chain at frame `env`, for conventional
    /// printing; see `display_v`.  Symbol resolution is bounded by `depth`.
    pub fn to_string(&self, scopes: &Scopes, env: usize, depth: u64) -> (r: String)
        requires
            scopes.wf(),
            env < scopes.frames@.len(),
        ensures
            r@ == display_v(scopes.frames@, DispCtx::Chain(env as int), self@, depth as nat),
    {
        display_exec(self, scopes, ECtx::Chain(env), depth)
    }
}

} // verus!
