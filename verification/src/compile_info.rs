//! Compile pipeline state: scripts compiled so far, the script being compiled, the literal
//! `require`s it found, and the post-order walk over the `require` graph.
//!
//! Reading a file and resolving its canonical path are the caller's work: a compile step
//! returns the path of the next file it needs, and `file_loaded` hands back that file's
//! canonical path and text. Dependencies compile before the file that requires them, and a
//! file whose canonical path was compiled already is not compiled again.

use vstd::prelude::*;
use std::collections::HashMap;
use crate::front::{literal_requires, resolve_require_path, spec_literal_requires, spec_resolve};
use crate::ids::IdCreator;
use crate::value::LInt;
use crate::vm::{spec_move_to_end, BoyiaVM};

verus! {

broadcast use vstd::std_specs::hash::group_hash_axioms;

/// Instruction offset in the VM code.
pub type OpOffset = LInt;

/// Offset that names no instruction.
pub const K_INVALID_INSTRUCTION: OpOffset = -1;

/// Source line and column of a compiled instruction.
pub struct SourcePosition {
    pub line_num: LInt,
    pub column_num: LInt,
}

/// One compiled script file and its instruction span.
pub struct Script {
    /// Canonical path of the source file.
    pub script_path: String,
    /// Identifier key of `script_path`.
    pub script_id: usize,
    /// First instruction emitted for this file.
    pub code_start: OpOffset,
    /// Last instruction emitted for this file (inclusive), or `K_INVALID_INSTRUCTION`.
    pub code_end: OpOffset,
    /// Source position of each instruction offset within the span.
    pub code_positions: HashMap<OpOffset, SourcePosition>,
}

impl Script {
    /// A script record whose code starts at `code_start` and has no end yet.
    pub fn new(script_path: String, script_id: usize, code_start: OpOffset) -> (s: Self)
        ensures
            s.script_path == script_path,
            s.script_id == script_id,
            s.code_start == code_start,
            s.code_end == K_INVALID_INSTRUCTION,
            s.code_positions@ == Map::<OpOffset, SourcePosition>::empty(),
    {
        Script {
            script_path,
            script_id,
            code_start,
            code_end: K_INVALID_INSTRUCTION,
            code_positions: HashMap::new(),
        }
    }

    /// Record (or replace) the source position of instruction `code_index`.
    pub fn set_code_position(&mut self, code_index: OpOffset, line_num: LInt, column_num: LInt)
        ensures
            final(self).code_positions@ == old(self).code_positions@.insert(
                code_index,
                SourcePosition { line_num, column_num },
            ),
            final(self).script_path == old(self).script_path,
            final(self).script_id == old(self).script_id,
            final(self).code_start == old(self).code_start,
            final(self).code_end == old(self).code_end,
    {
        self.code_positions.insert(code_index, SourcePosition { line_num, column_num });
    }
}

/// A file whose own global chain is compiled and whose dependencies are being walked.
struct CompileFrame {
    entry_start: usize,
    entry_end: usize,
    deps: Vec<String>,
    next: usize,
    own: Ghost<Seq<LInt>>,
}

/// What a walk frame means: the file's own chain range, its dependency paths, how many of
/// them were handed out, and the entries of its own chain.
pub struct FrameView {
    pub entry_start: int,
    pub entry_end: int,
    pub deps: Seq<Seq<char>>,
    pub next: int,
    pub own: Seq<LInt>,
}

/// One step of the walk over frames and the entry table: frames whose dependencies are
/// all handed out are finished (their own chain moved behind every other entry), then the
/// next dependency of the nearest unfinished frame is handed out.
pub open spec fn spec_advance(frames: Seq<FrameView>, entry: Seq<LInt>) -> (
    Seq<FrameView>,
    Seq<LInt>,
    Option<Seq<char>>,
)
    decreases frames.len(),
{
    if frames.len() == 0 {
        (frames, entry, None)
    } else {
        let top = frames.last();
        if 0 <= top.next < top.deps.len() {
            (
                frames.update(frames.len() - 1, FrameView { next: top.next + 1, ..top }),
                entry,
                Some(top.deps[top.next]),
            )
        } else {
            spec_advance(
                frames.drop_last(),
                spec_move_to_end(entry, top.entry_start, top.entry_end),
            )
        }
    }
}

/// `pending` after recording `key`: unchanged when `key` is compiled already, is the entry
/// script, or is pending already; else `key` is added at the end.
pub open spec fn spec_enqueue(
    scripts: Seq<Seq<char>>,
    entry_path: Seq<char>,
    pending: Seq<Seq<char>>,
    key: Seq<char>,
) -> Seq<Seq<char>> {
    if scripts.contains(key) || key == entry_path || pending.contains(key) {
        pending
    } else {
        pending.push(key)
    }
}

/// `pending` after recording each of `keys` in turn.
pub open spec fn spec_enqueue_all(
    scripts: Seq<Seq<char>>,
    entry_path: Seq<char>,
    pending: Seq<Seq<char>>,
    keys: Seq<Seq<char>>,
) -> Seq<Seq<char>>
    decreases keys.len(),
{
    if keys.len() == 0 {
        pending
    } else {
        spec_enqueue(
            scripts,
            entry_path,
            spec_enqueue_all(scripts, entry_path, pending, keys.drop_last()),
            keys.last(),
        )
    }
}

/// A compiled file, or the entry file, is never queued again, whatever the other paths
/// recorded: so a file that several files require is compiled once, and a cycle of
/// `require`s ends when it comes back to a compiled file.
pub proof fn lemma_compiled_not_requeued(
    scripts: Seq<Seq<char>>,
    entry_path: Seq<char>,
    pending: Seq<Seq<char>>,
    keys: Seq<Seq<char>>,
    key: Seq<char>,
)
    requires
        scripts.contains(key) || key == entry_path,
        !pending.contains(key),
    ensures
        !spec_enqueue_all(scripts, entry_path, pending, keys).contains(key),
    decreases keys.len(),
{
    if keys.len() > 0 {
        lemma_compiled_not_requeued(scripts, entry_path, pending, keys.drop_last(), key);
        let before = spec_enqueue_all(scripts, entry_path, pending, keys.drop_last());
        let k = keys.last();
        if !(scripts.contains(k) || k == entry_path || before.contains(k)) {
            assert(k != key);
            assert forall|j: int| 0 <= j < before.push(k).len() implies before.push(k)[j] != key by {
                if j < before.len() {
                    assert(before.push(k)[j] == before[j]);
                }
            }
        }
    }
}

/// Compiling a file that needs no text changes nothing: the frame that `compile_file`
/// pushes for it ends as soon as its path is handed back unread, and the walk goes on as
/// it was.
pub proof fn lemma_compile_known_file_noop(fs: Seq<FrameView>, e: Seq<LInt>, path: Seq<char>)
    ensures
        spec_advance(
            fs.push(FrameView { entry_start: e.len() as int, entry_end: e.len() as int, deps: seq![path], next: 1, own: Seq::empty() }),
            e,
        ) == spec_advance(fs, e),
{
    let f = FrameView { entry_start: e.len() as int, entry_end: e.len() as int, deps: seq![path], next: 1, own: Seq::empty() };
    assert(fs.push(f).drop_last() =~= fs);
    assert(spec_move_to_end(e, e.len() as int, e.len() as int) == e);
}

/// Work left in a walk: for each open frame, the dependencies it has not handed out yet,
/// plus one for closing it.
pub open spec fn spec_walk_remaining(frames: Seq<FrameView>) -> int
    decreases frames.len(),
{
    if frames.len() == 0 {
        0
    } else {
        spec_walk_remaining(frames.drop_last()) + (frames.last().deps.len() - frames.last().next)
            + 1
    }
}

/// Each frame has handed out at most its own dependencies.
pub open spec fn frames_in_range(frames: Seq<FrameView>) -> bool {
    forall|k: int| 0 <= k < frames.len() ==> 0 <= #[trigger] frames[k].next <= frames[k].deps.len()
}

/// A walk step makes progress: it hands out one dependency or closes frames, so the work
/// left drops while any frame is open, and the frames stay in range. The walk is over
/// (`None`) exactly when no frame is left.
pub proof fn lemma_advance_progress(frames: Seq<FrameView>, entry: Seq<LInt>)
    requires
        frames_in_range(frames),
    ensures
        0 <= spec_walk_remaining(frames),
        ({
            let (fs, e, p) = spec_advance(frames, entry);
            &&& frames_in_range(fs)
            &&& 0 <= spec_walk_remaining(fs)
            &&& frames.len() > 0 ==> spec_walk_remaining(fs) < spec_walk_remaining(frames)
            &&& (p is None <==> fs.len() == 0)
        }),
    decreases frames.len(),
{
    if frames.len() > 0 {
        let top = frames.last();
        let rest = frames.drop_last();
        assert(frames_in_range(rest)) by {
            assert forall|k: int| 0 <= k < rest.len() implies 0 <= #[trigger] rest[k].next
                <= rest[k].deps.len() by {
                assert(rest[k] == frames[k]);
            }
        }
        lemma_advance_progress(rest, spec_move_to_end(entry, top.entry_start, top.entry_end));
        assert(0 <= top.next <= top.deps.len()) by {
            assert(frames[frames.len() - 1] == top);
        }
        if top.next < top.deps.len() {
            let nt = FrameView { next: top.next + 1, ..top };
            let fs = frames.update(frames.len() - 1, nt);
            assert(fs.drop_last() =~= rest);
            assert(fs.last() == nt);
            assert forall|k: int| 0 <= k < fs.len() implies 0 <= #[trigger] fs[k].next
                <= fs[k].deps.len() by {
                if k < rest.len() {
                    assert(fs[k] == rest[k]);
                }
            }
        }
    }
}

/// The files of `files` whose paths are not among the compiled paths `paths`.
pub open spec fn spec_uncompiled(files: Set<Seq<char>>, paths: Seq<Seq<char>>) -> Set<Seq<char>> {
    files.filter(|f: Seq<char>| !paths.contains(f))
}

/// Recording a path twice has the effect of recording it once.
pub proof fn lemma_enqueue_idempotent(
    scripts: Seq<Seq<char>>,
    entry_path: Seq<char>,
    pending: Seq<Seq<char>>,
    key: Seq<char>,
)
    ensures
        spec_enqueue(scripts, entry_path, spec_enqueue(scripts, entry_path, pending, key), key)
            == spec_enqueue(scripts, entry_path, pending, key),
{
    if !(scripts.contains(key) || key == entry_path || pending.contains(key)) {
        assert(pending.push(key)[pending.len() as int] == key);
    }
}

/// Recording paths never lists one twice.
pub proof fn lemma_enqueue_distinct(
    scripts: Seq<Seq<char>>,
    entry_path: Seq<char>,
    pending: Seq<Seq<char>>,
    keys: Seq<Seq<char>>,
)
    requires
        forall|i: int, j: int| 0 <= i < j < pending.len() ==> pending[i] != pending[j],
    ensures
        ({
            let p = spec_enqueue_all(scripts, entry_path, pending, keys);
            forall|i: int, j: int| 0 <= i < j < p.len() ==> p[i] != p[j]
        }),
    decreases keys.len(),
{
    if keys.len() > 0 {
        lemma_enqueue_distinct(scripts, entry_path, pending, keys.drop_last());
        let before = spec_enqueue_all(scripts, entry_path, pending, keys.drop_last());
        let k = keys.last();
        if !(scripts.contains(k) || k == entry_path || before.contains(k)) {
            let p = before.push(k);
            assert forall|i: int, j: int| 0 <= i < j < p.len() implies p[i] != p[j] by {
                if j == before.len() {
                    assert(p[i] == before[i]);
                }
            }
        }
    }
}

/// Whether the text holds a NUL character (the compiler then sees an empty script).
pub open spec fn has_nul(s: Seq<char>) -> bool {
    exists|i: int| 0 <= i < s.len() && s[i] == '\0'
}

/// The paths that compiling `source` records, when `base` is the path that relative
/// literals resolve against.
pub open spec fn spec_required_paths(base: Seq<char>, source: Seq<char>) -> Seq<Seq<char>> {
    if has_nul(source) {
        Seq::empty()
    } else {
        spec_literal_requires(source).map_values(|lit: Seq<char>| spec_resolve(base, lit))
    }
}

/// Compile pipeline state.
pub struct BoyiaCompileInfo {
    scripts: Vec<Script>,
    current_script: Option<Script>,
    pending_requires: Vec<String>,
    entry_script_path: String,
    stack: Vec<CompileFrame>,
    direct_request: bool,
}

impl BoyiaCompileInfo {
    /// Canonical paths of the compiled scripts, in compile order.
    pub closed spec fn script_paths(&self) -> Seq<Seq<char>> {
        self.scripts@.map_values(|s: Script| s.script_path@)
    }

    /// The compiled scripts, in compile order.
    pub closed spec fn scripts(&self) -> Seq<Script> {
        self.scripts@
    }

    /// The script being compiled, if any.
    pub closed spec fn current(&self) -> Option<Script> {
        self.current_script
    }

    /// Paths recorded by `require`s of the script being compiled, not yet walked.
    pub closed spec fn pending(&self) -> Seq<Seq<char>> {
        self.pending_requires@.map_values(|s: String| s@)
    }

    /// Path of the entry script.
    pub closed spec fn entry_path(&self) -> Seq<char> {
        self.entry_script_path@
    }

    /// Whether the path handed out last was asked for directly, by `compile_file`, rather
    /// than recorded by a `require`.
    pub closed spec fn direct_request(&self) -> bool {
        self.direct_request
    }

    /// The walk frames, outermost first.
    pub closed spec fn frames(&self) -> Seq<FrameView> {
        self.stack@.map_values(
            |f: CompileFrame|
                FrameView {
                    entry_start: f.entry_start as int,
                    entry_end: f.entry_end as int,
                    deps: f.deps@.map_values(|s: String| s@),
                    next: f.next as int,
                    own: f.own@,
                },
        )
    }

    /// The state's invariant: compiled scripts have distinct paths.
    pub open spec fn wf(&self) -> bool {
        forall|i: int, j: int|
            0 <= i < j < self.script_paths().len() ==> self.script_paths()[i]
                != self.script_paths()[j]
    }

    /// How the walk relates to the entry table: each frame's own chain still sits at its
    /// range, and the ranges lie in order within the table.
    pub open spec fn session_ok(&self, entry: Seq<LInt>) -> bool {
        let fs = self.frames();
        &&& forall|k: int|
            #![trigger fs[k]]
            0 <= k < fs.len() ==> {
                &&& 0 <= fs[k].entry_start <= fs[k].entry_end <= entry.len()
                &&& entry.subrange(fs[k].entry_start, fs[k].entry_end) == fs[k].own
                &&& 0 <= fs[k].next <= fs[k].deps.len()
            }
        &&& forall|k: int, l: int|
            #![trigger fs[k], fs[l]]
            0 <= k < l < fs.len() ==> fs[k].entry_end <= fs[l].entry_start
    }

    /// An empty pipeline.
    pub fn new() -> (r: Self)
        ensures
            r.wf(),
            r.script_paths() == Seq::<Seq<char>>::empty(),
            r.scripts() == Seq::<Script>::empty(),
            r.current() is None,
            r.pending() == Seq::<Seq<char>>::empty(),
            r.entry_path() == Seq::<char>::empty(),
            r.frames() == Seq::<FrameView>::empty(),
            !r.direct_request(),
            forall|e: Seq<LInt>| r.session_ok(e),
    {
        let r = BoyiaCompileInfo {
            scripts: Vec::new(),
            current_script: None,
            pending_requires: Vec::new(),
            entry_script_path: String::new(),
            stack: Vec::new(),
            direct_request: false,
        };
        proof {
            assert(r.script_paths() =~= Seq::<Seq<char>>::empty());
            assert(r.scripts() =~= Seq::<Script>::empty());
            assert(r.pending() =~= Seq::<Seq<char>>::empty());
            assert(r.frames() =~= Seq::<FrameView>::empty());
        }
        r
    }
}

impl Default for BoyiaCompileInfo {
    /// An empty pipeline (see `BoyiaCompileInfo::new`).
    fn default() -> (r: Self)
        ensures
            r.wf(),
            r.script_paths() == Seq::<Seq<char>>::empty(),
            r.current() is None,
            r.pending() == Seq::<Seq<char>>::empty(),
            r.entry_path() == Seq::<char>::empty(),
            r.frames() == Seq::<FrameView>::empty(),
            !r.direct_request(),
    {
        Self::new()
    }
}

impl BoyiaCompileInfo {
    /// Path of the script being compiled, or the empty string.
    pub fn current_script_path(&self) -> (r: &str)
        ensures
            r@ == match self.current() {
                Some(sc) => sc.script_path@,
                None => Seq::<char>::empty(),
            },
    {
        match &self.current_script {
            Some(script) => script.script_path.as_str(),
            None => {
                proof {
                    reveal_strlit("");
                }
                ""
            },
        }
    }

    /// Identifier of the script being compiled, or 0.
    pub fn current_script_id(&self) -> (r: usize)
        ensures
            r == match self.current() {
                Some(sc) => sc.script_id,
                None => 0,
            },
    {
        match &self.current_script {
            Some(script) => script.script_id,
            None => 0,
        }
    }

    /// Record the (canonical) path of the entry script, which `require`s outside any
    /// script file resolve against.
    pub fn set_entry_script_path(&mut self, path: &str)
        ensures
            final(self).entry_path() == path@,
            final(self).direct_request() == old(self).direct_request(),
            final(self).script_paths() == old(self).script_paths(),
            final(self).scripts() == old(self).scripts(),
            final(self).current() == old(self).current(),
            final(self).pending() == old(self).pending(),
            final(self).frames() == old(self).frames(),
    {
        self.entry_script_path = path.to_owned();
    }

    /// The path that relative `require`s resolve against: the script being compiled, else
    /// the entry script, else the empty string.
    pub open spec fn spec_require_path_base(&self) -> Seq<char> {
        match self.current() {
            Some(sc) => sc.script_path@,
            None => self.entry_path(),
        }
    }

    /// The path that relative `require`s resolve against.
    pub fn require_path_base(&self) -> (r: &str)
        ensures
            r@ == self.spec_require_path_base(),
    {
        if let Some(script) = &self.current_script {
            return script.script_path.as_str();
        }
        self.entry_script_path.as_str()
    }

    /// Record the source position of instruction `code_index` in the script being compiled;
    /// nothing happens when no script is being compiled.
    pub fn set_code_position(&mut self, code_index: OpOffset, line_num: LInt, column_num: LInt)
        ensures
            match old(self).current() {
                Some(sc) => final(self).current() matches Some(nc) && nc.code_positions@
                    == sc.code_positions@.insert(code_index, SourcePosition { line_num, column_num })
                    && nc.script_path == sc.script_path && nc.script_id == sc.script_id
                    && nc.code_start == sc.code_start && nc.code_end == sc.code_end,
                None => final(self).current() is None,
            },
            final(self).script_paths() == old(self).script_paths(),
            final(self).scripts() == old(self).scripts(),
            final(self).pending() == old(self).pending(),
            final(self).entry_path() == old(self).entry_path(),
            final(self).direct_request() == old(self).direct_request(),
            final(self).frames() == old(self).frames(),
    {
        if let Some(script) = &mut self.current_script {
            script.set_code_position(code_index, line_num, column_num);
        }
    }

    /// Whether a script with path `key` was compiled.
    fn has_script(&self, key: &String) -> (r: bool)
        ensures
            r == self.script_paths().contains(key@),
    {
        let mut i: usize = 0;
        while i < self.scripts.len()
            invariant
                i <= self.scripts@.len(),
                forall|j: int| 0 <= j < i ==> self.script_paths()[j] != key@,
            decreases self.scripts@.len() - i,
        {
            if self.scripts[i].script_path == *key {
                proof {
                    assert(self.script_paths()[i as int] == key@);
                }
                return true;
            }
            i = i + 1;
        }
        false
    }

    /// Whether `key` is pending.
    fn is_pending(&self, key: &String) -> (r: bool)
        ensures
            r == self.pending().contains(key@),
    {
        let mut i: usize = 0;
        while i < self.pending_requires.len()
            invariant
                i <= self.pending_requires@.len(),
                forall|j: int| 0 <= j < i ==> self.pending()[j] != key@,
            decreases self.pending_requires@.len() - i,
        {
            if self.pending_requires[i] == *key {
                proof {
                    assert(self.pending()[i as int] == key@);
                }
                return true;
            }
            i = i + 1;
        }
        false
    }

    /// Record a resolved `require` path of the script being compiled, unless it was compiled
    /// already, is the entry script, or is pending already.
    pub fn enqueue_script(&mut self, resolved_path: &str)
        ensures
            final(self).pending() == spec_enqueue(
                old(self).script_paths(),
                old(self).entry_path(),
                old(self).pending(),
                resolved_path@,
            ),
            final(self).script_paths() == old(self).script_paths(),
            final(self).scripts() == old(self).scripts(),
            final(self).current() == old(self).current(),
            final(self).entry_path() == old(self).entry_path(),
            final(self).direct_request() == old(self).direct_request(),
            final(self).frames() == old(self).frames(),
    {
        let key = resolved_path.to_owned();
        if self.has_script(&key) || key == self.entry_script_path {
            return;
        }
        if self.is_pending(&key) {
            return;
        }
        let ghost old_pending = self.pending();
        self.pending_requires.push(key);
        proof {
            assert(self.pending() =~= old_pending.push(resolved_path@));
        }
    }

    /// Run the compiler's compile-time calls over `script`: each literal `require("...")`
    /// records its path resolved against `require_path_base`. A script holding a NUL
    /// character is seen as empty. (This crate holds no code generator: no instruction or
    /// entry is emitted.)
    pub fn compile_string(&mut self, script: &str, vm: &mut BoyiaVM)
        ensures
            final(self).pending() == spec_enqueue_all(
                old(self).script_paths(),
                old(self).entry_path(),
                old(self).pending(),
                spec_required_paths(old(self).spec_require_path_base(), script@),
            ),
            final(self).script_paths() == old(self).script_paths(),
            final(self).scripts() == old(self).scripts(),
            final(self).current() == old(self).current(),
            final(self).entry_path() == old(self).entry_path(),
            final(self).direct_request() == old(self).direct_request(),
            final(self).frames() == old(self).frames(),
            *final(vm) == *old(vm),
    {
        let ghost base_view = self.spec_require_path_base();
        let ghost s0 = self.pending();
        let cs = crate::front::chars_of(script);
        let mut z: usize = 0;
        while z < cs.len()
            invariant
                cs@ == script@,
                z <= cs@.len(),
                forall|j: int| 0 <= j < z ==> cs@[j] != '\0',
            decreases cs@.len() - z,
        {
            if cs[z] == '\0' {
                proof {
                    assert(has_nul(script@));
                    assert(spec_required_paths(base_view, script@) =~= Seq::<Seq<char>>::empty());
                }
                return;
            }
            z = z + 1;
        }
        let base = self.require_path_base().to_owned();
        let lits = literal_requires(script);
        let ghost paths = lits@.map_values(|l: String| spec_resolve(base_view, l@));
        proof {
            assert(paths =~= spec_required_paths(base_view, script@));
        }
        let mut k: usize = 0;
        proof {
            assert(paths.take(0) =~= Seq::<Seq<char>>::empty());
        }
        while k < lits.len()
            invariant
                base@ == base_view,
                k <= lits@.len(),
                paths == lits@.map_values(|l: String| spec_resolve(base_view, l@)),
                self.pending() == spec_enqueue_all(
                    old(self).script_paths(),
                    old(self).entry_path(),
                    s0,
                    paths.take(k as int),
                ),
                self.script_paths() == old(self).script_paths(),
                self.scripts() == old(self).scripts(),
                self.current() == old(self).current(),
                self.entry_path() == old(self).entry_path(),
                self.direct_request() == old(self).direct_request(),
                self.frames() == old(self).frames(),
            decreases lits@.len() - k,
        {
            let path = resolve_require_path(base.as_str(), lits[k].as_str());
            self.enqueue_script(path.as_str());
            proof {
                assert(paths.take(k + 1).drop_last() =~= paths.take(k as int));
                assert(paths.take(k + 1).last() == path@);
            }
            k = k + 1;
        }
        proof {
            assert(paths.take(lits@.len() as int) =~= paths);
        }
    }
}


/// When a file's walk finishes, its own chain is moved behind every other entry: the entries
/// before it stay where they were, the entries its dependencies added follow them in their
/// order, and its own chain comes last. So a dependency's global code runs before the code
/// of the file that requires it.
pub proof fn lemma_dependencies_run_first(entry: Seq<LInt>, start: int, end: int)
    requires
        0 <= start < end <= entry.len(),
    ensures
        ({
            let e2 = spec_move_to_end(entry, start, end);
            &&& e2.len() == entry.len()
            &&& e2.subrange(0, start) == entry.subrange(0, start)
            &&& e2.subrange(start, e2.len() - (end - start)) == entry.subrange(end, entry.len() as int)
            &&& e2.subrange(e2.len() - (end - start), e2.len() as int) == entry.subrange(start, end)
        }),
{
    let e2 = spec_move_to_end(entry, start, end);
    assert(e2.subrange(0, start) =~= entry.subrange(0, start));
    assert(e2.subrange(start, e2.len() - (end - start)) =~= entry.subrange(end, entry.len() as int));
    assert(e2.subrange(e2.len() - (end - start), e2.len() as int) =~= entry.subrange(start, end));
}

impl BoyiaCompileInfo {
    /// Finish the frames whose dependencies are all handed out (moving each one's own chain
    /// behind every other entry), then hand out the next dependency of the nearest
    /// unfinished frame: its path is returned for the caller to load. `None`: the walk is over.
    fn advance(&mut self, vm: &mut BoyiaVM) -> (r: Option<String>)
        requires
            old(vm).wf(),
            old(self).session_ok(old(vm).entry@),
        ensures
            final(vm).wf(),
            final(self).session_ok(final(vm).entry@),
            ({
                let (fs, e, p) = spec_advance(old(self).frames(), old(vm).entry@);
                &&& final(self).frames() == fs
                &&& final(vm).entry@ == e
                &&& match r {
                    Some(s) => p == Some(s@),
                    None => p is None,
                }
            }),
            final(self).script_paths() == old(self).script_paths(),
            final(self).scripts() == old(self).scripts(),
            final(self).current() == old(self).current(),
            final(self).pending() == old(self).pending(),
            final(self).entry_path() == old(self).entry_path(),
            final(self).direct_request() == old(self).direct_request(),
            *final(vm) == (BoyiaVM { entry: final(vm).entry, ..*old(vm) }),
    {
        loop
            invariant
                vm.wf(),
                self.session_ok(vm.entry@),
                spec_advance(self.frames(), vm.entry@) == spec_advance(
                    old(self).frames(),
                    old(vm).entry@,
                ),
                self.script_paths() == old(self).script_paths(),
                self.scripts() == old(self).scripts(),
                self.current() == old(self).current(),
                self.pending() == old(self).pending(),
                self.entry_path() == old(self).entry_path(),
                self.direct_request() == old(self).direct_request(),
                *vm == (BoyiaVM { entry: vm.entry, ..*old(vm) }),
            decreases self.stack@.len(),
        {
            let ghost fs = self.frames();
            if self.stack.len() == 0 {
                proof {
                    assert(fs =~= Seq::<FrameView>::empty());
                }
                return None;
            }
            let mut top = self.stack.pop().unwrap();
            proof {
                assert(self.frames() =~= fs.drop_last());
            }
            if top.next < top.deps.len() {
                let path = top.deps[top.next].clone();
                let ghost tv = fs.last();
                top.next = top.next + 1;
                self.stack.push(top);
                proof {
                    assert(self.frames() =~= fs.update(fs.len() - 1, FrameView { next: tv.next + 1, ..tv }));
                    assert(tv.deps[tv.next] == path@);
                    let nfs = self.frames();
                    assert forall|k: int| #![trigger nfs[k]] 0 <= k < nfs.len() implies {
                        &&& 0 <= nfs[k].entry_start <= nfs[k].entry_end <= vm.entry@.len()
                        &&& vm.entry@.subrange(nfs[k].entry_start, nfs[k].entry_end) == nfs[k].own
                        &&& 0 <= nfs[k].next <= nfs[k].deps.len()
                    } by {
                        assert(fs[k].entry_start == nfs[k].entry_start);
                    }
                    assert forall|k: int, l: int| #![trigger nfs[k], nfs[l]] 0 <= k < l < nfs.len()
                        implies nfs[k].entry_end <= nfs[l].entry_start by {
                        assert(fs[k].entry_end <= fs[l].entry_start);
                    }
                }
                return Some(path);
            }
            let ghost e0 = vm.entry@;
            let ghost tv = fs.last();
            vm.move_entries_to_end(top.entry_start, top.entry_end);
            proof {
                let nfs = self.frames();
                assert forall|k: int| #![trigger nfs[k]] 0 <= k < nfs.len() implies {
                    &&& 0 <= nfs[k].entry_start <= nfs[k].entry_end <= vm.entry@.len()
                    &&& vm.entry@.subrange(nfs[k].entry_start, nfs[k].entry_end) == nfs[k].own
                    &&& 0 <= nfs[k].next <= nfs[k].deps.len()
                } by {
                    assert(fs[k] == nfs[k]);
                    assert(fs[k].entry_end <= tv.entry_start);
                    assert(vm.entry@.subrange(nfs[k].entry_start, nfs[k].entry_end) =~= e0.subrange(
                        nfs[k].entry_start,
                        nfs[k].entry_end,
                    ));
                }
                assert forall|k: int, l: int| #![trigger nfs[k], nfs[l]] 0 <= k < l < nfs.len()
                    implies nfs[k].entry_end <= nfs[l].entry_start by {
                    assert(fs[k].entry_end <= fs[l].entry_start);
                }
            }
        }
    }

    /// Take the pending paths, leaving none.
    fn take_pending(&mut self) -> (r: Vec<String>)
        ensures
            r@.map_values(|s: String| s@) == old(self).pending(),
            final(self).pending() == Seq::<Seq<char>>::empty(),
            final(self).script_paths() == old(self).script_paths(),
            final(self).scripts() == old(self).scripts(),
            final(self).current() == old(self).current(),
            final(self).entry_path() == old(self).entry_path(),
            final(self).direct_request() == old(self).direct_request(),
            final(self).frames() == old(self).frames(),
    {
        let mut r: Vec<String> = Vec::new();
        std::mem::swap(&mut r, &mut self.pending_requires);
        proof {
            assert(self.pending() =~= Seq::<Seq<char>>::empty());
        }
        r
    }

    /// Push the frame of a file whose own chain is `[entry_start, entry_end)`.
    fn push_frame(&mut self, entry_start: usize, entry_end: usize, deps: Vec<String>, vm: &BoyiaVM)
        requires
            old(self).session_ok(vm.entry@),
            entry_start <= entry_end <= vm.entry@.len(),
            forall|k: int| #![trigger old(self).frames()[k]] 0 <= k < old(self).frames().len()
                ==> old(self).frames()[k].entry_end <= entry_start,
        ensures
            final(self).session_ok(vm.entry@),
            final(self).frames() == old(self).frames().push(FrameView {
                entry_start: entry_start as int,
                entry_end: entry_end as int,
                deps: deps@.map_values(|s: String| s@),
                next: 0,
                own: vm.entry@.subrange(entry_start as int, entry_end as int),
            }),
            final(self).script_paths() == old(self).script_paths(),
            final(self).scripts() == old(self).scripts(),
            final(self).current() == old(self).current(),
            final(self).pending() == old(self).pending(),
            final(self).entry_path() == old(self).entry_path(),
            final(self).direct_request() == old(self).direct_request(),
    {
        let ghost fs = self.frames();
        let frame = CompileFrame {
            entry_start,
            entry_end,
            deps,
            next: 0,
            own: Ghost(vm.entry@.subrange(entry_start as int, entry_end as int)),
        };
        self.stack.push(frame);
        proof {
            let nfs = self.frames();
            assert(nfs =~= fs.push(FrameView {
                entry_start: entry_start as int,
                entry_end: entry_end as int,
                deps: deps@.map_values(|s: String| s@),
                next: 0,
                own: vm.entry@.subrange(entry_start as int, entry_end as int),
            }));
            assert forall|k: int| #![trigger nfs[k]] 0 <= k < nfs.len() implies {
                &&& 0 <= nfs[k].entry_start <= nfs[k].entry_end <= vm.entry@.len()
                &&& vm.entry@.subrange(nfs[k].entry_start, nfs[k].entry_end) == nfs[k].own
                &&& 0 <= nfs[k].next <= nfs[k].deps.len()
            } by {
                if k < fs.len() {
                    assert(fs[k] == nfs[k]);
                }
            }
            assert forall|k: int, l: int| #![trigger nfs[k], nfs[l]] 0 <= k < l < nfs.len()
                implies nfs[k].entry_end <= nfs[l].entry_start by {
                if l < fs.len() {
                    assert(fs[k].entry_end <= fs[l].entry_start);
                } else {
                    assert(fs[k].entry_end <= entry_start);
                }
            }
        }
    }

    /// Compile the entry source: run its compile-time calls, then start the walk over the
    /// files it requires (post-order: dependencies first, the entry's own chain last).
    /// Returns the path of the first file to load, or `None` when nothing is left to load.
    pub fn compile_entry(&mut self, script: &str, vm: &mut BoyiaVM, id_creator: &mut IdCreator) -> (r: Option<String>)
        requires
            old(vm).wf(),
            old(self).session_ok(old(vm).entry@),
        ensures
            final(vm).wf(),
            final(self).session_ok(final(vm).entry@),
            ({
                let deps = spec_enqueue_all(
                    old(self).script_paths(),
                    old(self).entry_path(),
                    old(self).pending(),
                    spec_required_paths(old(self).spec_require_path_base(), script@),
                );
                let n = old(vm).entry@.len() as int;
                let (fs, e, p) = spec_advance(
                    old(self).frames().push(FrameView { entry_start: n, entry_end: n, deps, next: 0, own: Seq::empty() }),
                    old(vm).entry@,
                );
                &&& final(self).frames() == fs
                &&& final(vm).entry@ == e
                &&& match r {
                    Some(s) => p == Some(s@),
                    None => p is None,
                }
            }),
            final(self).pending() == Seq::<Seq<char>>::empty(),
            final(self).script_paths() == old(self).script_paths(),
            final(self).scripts() == old(self).scripts(),
            final(self).current() == old(self).current(),
            final(self).entry_path() == old(self).entry_path(),
            !final(self).direct_request(),
            *final(id_creator) == *old(id_creator),
            *final(vm) == (BoyiaVM { entry: final(vm).entry, ..*old(vm) }),
    {
        let entry_start = vm.entry_len();
        self.compile_string(script, vm);
        let entry_end = vm.entry_len();
        let deps = self.take_pending();
        proof {
            assert(vm.entry@.subrange(entry_start as int, entry_end as int) =~= Seq::<LInt>::empty());
        }
        self.push_frame(entry_start, entry_end, deps, vm);
        self.direct_request = false;
        self.advance(vm)
    }

    /// Start compiling the file at `path` and the files it requires: returns `path` for the
    /// caller to load (see `file_loaded`). The path is asked for directly, so it is compiled
    /// even when it is the entry script's path: this is how the entry file is compiled from
    /// its path.
    pub fn compile_file(&mut self, path: &str, vm: &mut BoyiaVM, id_creator: &mut IdCreator) -> (r: Option<String>)
        requires
            old(vm).wf(),
            old(self).session_ok(old(vm).entry@),
        ensures
            final(vm).wf(),
            final(self).session_ok(final(vm).entry@),
            r matches Some(s) && s@ == path@,
            final(self).frames() == old(self).frames().push(FrameView {
                entry_start: old(vm).entry@.len() as int,
                entry_end: old(vm).entry@.len() as int,
                deps: seq![path@],
                next: 1,
                own: Seq::empty(),
            }),
            final(vm).entry@ == old(vm).entry@,
            final(self).pending() == old(self).pending(),
            final(self).script_paths() == old(self).script_paths(),
            final(self).scripts() == old(self).scripts(),
            final(self).current() == old(self).current(),
            final(self).entry_path() == old(self).entry_path(),
            final(self).direct_request(),
            *final(id_creator) == *old(id_creator),
            *final(vm) == (BoyiaVM { entry: final(vm).entry, ..*old(vm) }),
    {
        let n = vm.entry_len();
        let mut deps: Vec<String> = Vec::new();
        deps.push(path.to_owned());
        proof {
            assert(deps@.map_values(|s: String| s@) =~= seq![path@]);
            assert(vm.entry@.subrange(n as int, n as int) =~= Seq::<LInt>::empty());
        }
        self.push_frame(n, n, deps, vm);
        self.direct_request = true;
        self.advance(vm)
    }
}


impl BoyiaCompileInfo {
    /// Whether a file with canonical path `key` still needs its text: it was not compiled
    /// before, and it is not the entry script reached through a `require` (the entry script
    /// is compiled on its own, by `compile_entry` or by asking for it with `compile_file`).
    pub open spec fn spec_needs_source(&self, key: Seq<char>) -> bool {
        &&& !self.script_paths().contains(key)
        &&& (key != self.entry_path() || self.direct_request())
    }

    /// Whether handing back `key` with `source` compiles a new script: the file still needs
    /// its text (see `spec_needs_source`) and it was read and is not empty.
    pub open spec fn compiles(&self, key: Seq<char>, source: Option<Seq<char>>) -> bool {
        self.spec_needs_source(key) && (source matches Some(s) && s.len() > 0)
    }

    /// Each file is compiled once: a compiled file, or the entry script reached through a
    /// `require`, is not compiled again. Handing its path back, with or without its text,
    /// compiles nothing, and it needs no text (see `lemma_compile_known_file_noop` for the
    /// walk).
    pub proof fn lemma_compiled_once(&self, key: Seq<char>, source: Option<Seq<char>>)
        requires
            self.script_paths().contains(key) || (key == self.entry_path()
                && !self.direct_request()),
        ensures
            !self.compiles(key, source),
            !self.spec_needs_source(key),
    {
    }

    /// A walk ends, cycles of `require`s included. Let `files` be a finite set holding every
    /// path handed back to `file_loaded`. A step that compiles `key` records a path that was
    /// not compiled, so fewer files of `files` are left uncompiled; a step that compiles
    /// nothing leaves them as they are and only advances the walk, which lowers the work left
    /// (`lemma_advance_progress`). So the pair (files left uncompiled, work left) drops in
    /// order at each step, and the walk reaches `None`.
    pub proof fn lemma_compile_leaves_fewer(
        &self,
        files: Set<Seq<char>>,
        key: Seq<char>,
        source: Option<Seq<char>>,
    )
        requires
            files.finite(),
            files.contains(key),
            self.compiles(key, source),
        ensures
            spec_uncompiled(files, self.script_paths().push(key)).len() < spec_uncompiled(
                files,
                self.script_paths(),
            ).len(),
    {
        let paths = self.script_paths();
        let a = spec_uncompiled(files, paths);
        let b = spec_uncompiled(files, paths.push(key));
        assert forall|x: Seq<char>| b.contains(x) <==> a.remove(key).contains(x) by {
            vstd::seq_lib::lemma_seq_contains_after_push(paths, key, x);
        }
        assert(b =~= a.remove(key));
        assert(a.contains(key));
        assert(a.finite());
    }

    /// Whether the file with canonical path `key` still needs its text (see
    /// `spec_needs_source`): when it does not, the caller hands it back without reading it.
    pub fn needs_source(&self, key: &str) -> (r: bool)
        ensures
            r == self.spec_needs_source(key@),
    {
        let k = key.to_owned();
        !self.has_script(&k) && (self.direct_request || !(k == self.entry_script_path))
    }

    /// The file that the last step asked for was loaded: `key` is its canonical path and
    /// `source` its text (`None` when it could not be read, or was not read because the file
    /// needs none). Unless the file needs no text (see `spec_needs_source`) or the text is
    /// missing or empty, the file is compiled: a script record with
    /// a fresh identifier for `key` and its code span is kept, and the walk descends into
    /// the paths it requires. Returns the next path to load, or `None` when the walk is over.
    pub fn file_loaded(
        &mut self,
        key: &str,
        source: Option<&str>,
        vm: &mut BoyiaVM,
        id_creator: &mut IdCreator,
    ) -> (r: Option<String>)
        requires
            old(self).wf(),
            old(vm).wf(),
            old(self).session_ok(old(vm).entry@),
            old(id_creator).wf(),
            old(id_creator)@.len() < usize::MAX,
        ensures
            final(self).wf(),
            final(vm).wf(),
            final(self).session_ok(final(vm).entry@),
            final(self).current() == old(self).current(),
            final(self).entry_path() == old(self).entry_path(),
            !final(self).direct_request(),
            final(id_creator).wf(),
            ({
                let src = match source {
                    Some(s) => Some(s@),
                    None => None,
                };
                if old(self).compiles(key@, src) {
                    let deps = spec_enqueue_all(
                        old(self).script_paths(),
                        old(self).entry_path(),
                        old(self).pending(),
                        spec_required_paths(key@, src.unwrap()),
                    );
                    let n = old(vm).entry@.len() as int;
                    let (fs, e, p) = spec_advance(
                        old(self).frames().push(FrameView { entry_start: n, entry_end: n, deps, next: 0, own: Seq::empty() }),
                        old(vm).entry@,
                    );
                    let sc = final(self).scripts().last();
                    &&& final(self).script_paths() == old(self).script_paths().push(key@)
                    &&& final(self).scripts().drop_last() == old(self).scripts()
                    &&& 1 <= sc.script_id <= final(id_creator)@.len()
                    &&& final(id_creator)@[sc.script_id - 1] == key@
                    &&& final(id_creator)@ == crate::ids::spec_register_one(old(id_creator)@, key@)
                    &&& sc.code_start == old(vm).code@.len()
                    &&& sc.code_end == K_INVALID_INSTRUCTION
                    &&& sc.code_positions@ == Map::<OpOffset, SourcePosition>::empty()
                    &&& final(self).pending() == Seq::<Seq<char>>::empty()
                    &&& final(self).frames() == fs
                    &&& final(vm).entry@ == e
                    &&& match r {
                        Some(s) => p == Some(s@),
                        None => p is None,
                    }
                } else {
                    let (fs, e, p) = spec_advance(old(self).frames(), old(vm).entry@);
                    &&& final(self).script_paths() == old(self).script_paths()
                    &&& final(self).scripts() == old(self).scripts()
                    &&& final(self).pending() == old(self).pending()
                    &&& *final(id_creator) == *old(id_creator)
                    &&& final(self).frames() == fs
                    &&& final(vm).entry@ == e
                    &&& match r {
                        Some(s) => p == Some(s@),
                        None => p is None,
                    }
                }
            }),
            *final(vm) == (BoyiaVM { entry: final(vm).entry, ..*old(vm) }),
    {
        let k = key.to_owned();
        let direct = self.direct_request;
        self.direct_request = false;
        if self.has_script(&k) || (!direct && k == self.entry_script_path) {
            return self.advance(vm);
        }
        let src = match source {
            None => {
                return self.advance(vm);
            },
            Some(s) => s,
        };
        if src.is_empty() {
            return self.advance(vm);
        }
        let ghost old_scripts = self.scripts();
        let ghost old_paths = self.script_paths();
        let saved = self.current_script.take();
        let id = id_creator.gen_ident_by_str(key);
        let code_start = vm.code_len() as OpOffset;
        let entry_start = vm.entry_len();
        self.current_script = Some(Script::new(k, id, code_start));
        self.compile_string(src, vm);
        let entry_end = vm.entry_len();
        let code_len = vm.code_len();
        let code_end: OpOffset = if code_len > code_start as usize {
            (code_len - 1) as OpOffset
        } else {
            K_INVALID_INSTRUCTION
        };
        let mut script = self.current_script.take().unwrap();
        script.code_end = code_end;
        self.scripts.push(script);
        let deps = self.take_pending();
        self.current_script = saved;
        proof {
            assert(self.scripts() =~= old_scripts.push(self.scripts().last()));
            assert(self.script_paths() =~= old_paths.push(key@));
            assert(self.scripts().drop_last() =~= old_scripts);
            assert forall|i: int, j: int|
                0 <= i < j < self.script_paths().len() implies self.script_paths()[i]
                != self.script_paths()[j] by {
                if j == old_paths.len() {
                    assert(old_paths[i] == self.script_paths()[i]);
                }
            }
            assert(vm.entry@.subrange(entry_start as int, entry_end as int) =~= Seq::<LInt>::empty());
        }
        self.push_frame(entry_start, entry_end, deps, vm);
        self.advance(vm)
    }
}

} // verus!
