use vstd::prelude::*;

use crate::buffer::{BufferPtr, DataBuffer};
use crate::handle::{
    FrameBufferHandle, MeshHandle, RenderBufferHandle, ShaderHandle, SurfaceHandle, TextureHandle,
};
use crate::setup::{
    FrameBufferAttachment, FrameBufferSetup, MeshIndex, MeshSetup, Rect, RenderBufferSetup,
    RenderTextureSetup, Scissor, ShaderSetup, SurfaceSetup, TextureSetup,
};

verus! {

/// A creation or update that runs before every ordered task of its frame.
pub enum PreFrameTask {
    CreateSurface(SurfaceHandle, SurfaceSetup),
    CreatePipeline(ShaderHandle, ShaderSetup),
    CreateFrameBuffer(FrameBufferHandle, FrameBufferSetup),
    CreateTexture(TextureHandle, TextureSetup, Option<BufferPtr>),
    UpdateTexture(TextureHandle, Rect, BufferPtr),
    CreateRenderTexture(TextureHandle, RenderTextureSetup),
    CreateRenderBuffer(RenderBufferHandle, RenderBufferSetup),
    CreateMesh(MeshHandle, MeshSetup, Option<BufferPtr>, Option<BufferPtr>),
    UpdateVertexBuffer(MeshHandle, usize, BufferPtr),
    UpdateIndexBuffer(MeshHandle, usize, BufferPtr),
}

/// A draw call as recorded: each uniform's name with the token of its staged value.
pub struct FrameDrawCall {
    pub shader: ShaderHandle,
    pub mesh: MeshHandle,
    pub index: MeshIndex,
    pub uniforms: Vec<(String, BufferPtr)>,
}

/// The operation of an ordered task.
pub enum FrameTask {
    DrawCall(FrameDrawCall),
    UpdateSurface(Scissor),
    UpdateVertexBuffer(MeshHandle, usize, BufferPtr),
    UpdateIndexBuffer(MeshHandle, usize, BufferPtr),
    UpdateTexture(TextureHandle, Rect, BufferPtr),
}

/// A deletion that runs after every ordered task of its frame.
#[derive(Clone, Copy, Debug, PartialEq, Eq, Structural)]
pub enum PostFrameTask {
    DeleteSurface(SurfaceHandle),
    DeletePipeline(ShaderHandle),
    DeleteMesh(MeshHandle),
    DeleteTexture(TextureHandle),
    DeleteRenderBuffer(RenderBufferHandle),
    DeleteFrameBuffer(FrameBufferHandle),
}

pub open spec fn opt_within(p: Option<BufferPtr>, n: nat) -> bool {
    p.is_some() ==> p.unwrap().within(n)
}

impl PreFrameTask {
    /// Every token of the task lies within `n` staged bytes.
    pub open spec fn ptrs_within(&self, n: nat) -> bool {
        match self {
            PreFrameTask::CreateTexture(_, _, p) => opt_within(*p, n),
            PreFrameTask::UpdateTexture(_, _, p) => p.within(n),
            PreFrameTask::CreateMesh(_, _, v, i) => opt_within(*v, n) && opt_within(*i, n),
            PreFrameTask::UpdateVertexBuffer(_, _, p) => p.within(n),
            PreFrameTask::UpdateIndexBuffer(_, _, p) => p.within(n),
            _ => true,
        }
    }
}

impl FrameTask {
    /// Every token of the task lies within `n` staged bytes.
    pub open spec fn ptrs_within(&self, n: nat) -> bool {
        match self {
            FrameTask::DrawCall(dc) => forall|k: int|
                0 <= k < dc.uniforms@.len() ==> (#[trigger] dc.uniforms@[k]).1.within(n),
            FrameTask::UpdateSurface(_) => true,
            FrameTask::UpdateVertexBuffer(_, _, p) => p.within(n),
            FrameTask::UpdateIndexBuffer(_, _, p) => p.within(n),
            FrameTask::UpdateTexture(_, _, p) => p.within(n),
        }
    }
}

/// One step of a frame's dispatch, naming the frame's own tasks by index.
#[derive(Clone, Copy, Debug, PartialEq, Eq, Structural)]
pub enum DispatchStep {
    /// Run pre-task `i`; for a frame buffer, create the object itself.
    Pre(usize),
    /// Pre-task `i` creates a frame buffer: apply its attachment of slot `k`.
    Attach(usize, usize),
    /// Hand all ordered tasks to the device in one batch.
    Flush,
    /// Run post-task `i`.
    Post(usize),
}

/// The attachment steps of frame buffer pre-task `i`, in slot order.
pub open spec fn attach_steps(i: int, atts: Seq<Option<FrameBufferAttachment>>) -> Seq<DispatchStep>
    decreases atts.len(),
{
    if atts.len() == 0 {
        Seq::empty()
    } else {
        attach_steps(i, atts.drop_last()) + if atts.last().is_some() {
            seq![DispatchStep::Attach(i as usize, (atts.len() - 1) as usize)]
        } else {
            Seq::empty()
        }
    }
}

/// The steps of pre-task `t` at index `i`.
pub open spec fn steps_of_pre(t: PreFrameTask, i: int) -> Seq<DispatchStep> {
    match t {
        PreFrameTask::CreateFrameBuffer(_, setup) => seq![DispatchStep::Pre(i as usize)]
            + attach_steps(i, setup.attachments@),
        _ => seq![DispatchStep::Pre(i as usize)],
    }
}

/// The steps of all pre-tasks, oldest first.
pub open spec fn pre_steps(pre: Seq<PreFrameTask>) -> Seq<DispatchStep>
    decreases pre.len(),
{
    if pre.len() == 0 {
        Seq::empty()
    } else {
        pre_steps(pre.drop_last()) + steps_of_pre(pre.last(), pre.len() - 1)
    }
}

/// The steps of `n` post-tasks, oldest first.
pub open spec fn post_steps(n: nat) -> Seq<DispatchStep> {
    Seq::new(n, |i: int| DispatchStep::Post(i as usize))
}

pub open spec fn is_pre_step(s: DispatchStep) -> bool {
    match s {
        DispatchStep::Pre(_) => true,
        DispatchStep::Attach(_, _) => true,
        _ => false,
    }
}

pub open spec fn is_post_step(s: DispatchStep) -> bool {
    match s {
        DispatchStep::Post(_) => true,
        _ => false,
    }
}

/// The order key of an ordered task: its surface, then its order.
pub open spec fn key_of(t: (SurfaceHandle, u64, FrameTask)) -> (u32, u32, u64) {
    (t.0.index, t.0.version, t.1)
}

pub open spec fn key_lt(a: (u32, u32, u64), b: (u32, u32, u64)) -> bool {
    a.0 < b.0 || (a.0 == b.0 && (a.1 < b.1 || (a.1 == b.1 && a.2 < b.2)))
}

pub open spec fn key_le(a: (u32, u32, u64), b: (u32, u32, u64)) -> bool {
    key_lt(a, b) || a == b
}

/// Ordered task `a` is replayed before ordered task `b`: its key is smaller,
/// or the keys are equal and it was appended first.
pub open spec fn replays_before(tasks: Seq<(SurfaceHandle, u64, FrameTask)>, a: int, b: int) -> bool {
    key_lt(key_of(tasks[a]), key_of(tasks[b])) || (key_of(tasks[a]) == key_of(tasks[b]) && a < b)
}

/// `after` is `before` with `pre`, `tasks` and `post` appended to its three lists
/// and `staged` to its arena.
pub open spec fn recorded(
    before: Frame,
    after: Frame,
    pre: Seq<PreFrameTask>,
    tasks: Seq<(SurfaceHandle, u64, FrameTask)>,
    post: Seq<PostFrameTask>,
    staged: Seq<u8>,
) -> bool {
    &&& after.pre@ == before.pre@ + pre
    &&& after.tasks@ == before.tasks@ + tasks
    &&& after.post@ == before.post@ + post
    &&& after.buf@ == before.buf@ + staged
}

pub proof fn lemma_push_pre(before: Frame, after: Frame, t: PreFrameTask)
    requires
        after.pre@ == before.pre@.push(t),
        after.tasks@ == before.tasks@,
        after.post@ == before.post@,
        after.buf@ == before.buf@,
    ensures
        recorded(before, after, seq![t], seq![], seq![], seq![]),
{
    assert(after.pre@ =~= before.pre@ + seq![t]);
    assert(after.tasks@ =~= before.tasks@ + Seq::empty());
    assert(after.post@ =~= before.post@ + Seq::empty());
    assert(after.buf@ =~= before.buf@ + Seq::empty());
}

pub proof fn lemma_push_post(before: Frame, after: Frame, t: PostFrameTask)
    requires
        after.pre@ == before.pre@,
        after.tasks@ == before.tasks@,
        after.post@ == before.post@.push(t),
        after.buf@ == before.buf@,
    ensures
        recorded(before, after, seq![], seq![], seq![t], seq![]),
{
    assert(after.pre@ =~= before.pre@ + Seq::empty());
    assert(after.tasks@ =~= before.tasks@ + Seq::empty());
    assert(after.post@ =~= before.post@ + seq![t]);
    assert(after.buf@ =~= before.buf@ + Seq::empty());
}

/// One tick's recorded work and the arena that backs its tokens.
pub struct Frame {
    pub pre: Vec<PreFrameTask>,
    pub tasks: Vec<(SurfaceHandle, u64, FrameTask)>,
    pub post: Vec<PostFrameTask>,
    pub buf: DataBuffer,
}

impl Frame {
    /// Every token that the frame holds resolves in its arena.
    pub open spec fn wf(&self) -> bool {
        &&& forall|i: int| 0 <= i < self.pre@.len() ==> (#[trigger] self.pre@[i]).ptrs_within(self.buf@.len())
        &&& forall|i: int| 0 <= i < self.tasks@.len() ==> (#[trigger] self.tasks@[i]).2.ptrs_within(self.buf@.len())
    }

    pub open spec fn is_empty(&self) -> bool {
        &&& self.pre@.len() == 0
        &&& self.tasks@.len() == 0
        &&& self.post@.len() == 0
        &&& self.buf@.len() == 0
    }

    /// The number of recorded tasks of all three phases.
    pub open spec fn task_count(&self) -> nat {
        self.pre@.len() + self.tasks@.len() + self.post@.len()
    }

    /// The steps of dispatching this frame, in order.
    pub open spec fn spec_plan(&self) -> Seq<DispatchStep> {
        pre_steps(self.pre@) + seq![DispatchStep::Flush] + post_steps(self.post@.len())
    }

    /// Creates an empty frame whose arena has room for `capacity` bytes.
    pub fn with_capacity(capacity: usize) -> (r: Frame)
        ensures
            r.wf(),
            r.is_empty(),
    {
        Frame { pre: Vec::new(), tasks: Vec::new(), post: Vec::new(), buf: DataBuffer::with_capacity(capacity) }
    }

    /// Empties the frame: its task lists and its arena.
    pub fn clear(&mut self)
        ensures
            final(self).wf(),
            final(self).is_empty(),
    {
        self.pre.clear();
        self.tasks.clear();
        self.post.clear();
        self.buf.clear();
    }

    /// Tokens within `n` bytes stay within any larger length.
    pub proof fn lemma_wf_grows(&self, n: nat, m: nat)
        requires
            n <= m,
            forall|i: int| 0 <= i < self.pre@.len() ==> (#[trigger] self.pre@[i]).ptrs_within(n),
            forall|i: int| 0 <= i < self.tasks@.len() ==> (#[trigger] self.tasks@[i]).2.ptrs_within(n),
        ensures
            forall|i: int| 0 <= i < self.pre@.len() ==> (#[trigger] self.pre@[i]).ptrs_within(m),
            forall|i: int| 0 <= i < self.tasks@.len() ==> (#[trigger] self.tasks@[i]).2.ptrs_within(m),
    {
        assert forall|i: int| 0 <= i < self.tasks@.len() implies (#[trigger] self.tasks@[i]).2.ptrs_within(m) by {
            match self.tasks@[i].2 {
                FrameTask::DrawCall(dc) => {
                    assert forall|k: int| 0 <= k < dc.uniforms@.len() implies (#[trigger] dc.uniforms@[k]).1.within(m) by {
                        assert(dc.uniforms@[k].1.within(n));
                    }
                },
                _ => {},
            }
        }
    }

    /// The device steps of dispatching this frame, in order: each pre-task
    /// oldest first, a frame buffer's attachments in slot order right after
    /// the frame buffer itself; then one flush of all ordered tasks; then each
    /// post-task oldest first. A driver runs them and stops at the first that
    /// fails.
    pub fn dispatch(&self) -> (r: Vec<DispatchStep>)
        ensures
            r@ == self.spec_plan(),
    {
        let mut plan: Vec<DispatchStep> = Vec::new();
        let mut i: usize = 0;
        while i < self.pre.len()
            invariant
                0 <= i <= self.pre@.len(),
                plan@ == pre_steps(self.pre@.subrange(0, i as int)),
            decreases self.pre@.len() - i,
        {
            proof {
                assert(self.pre@.subrange(0, i as int + 1).drop_last() =~= self.pre@.subrange(0, i as int));
            }
            plan.push(DispatchStep::Pre(i));
            match &self.pre[i] {
                PreFrameTask::CreateFrameBuffer(_, setup) => {
                    let mut k: usize = 0;
                    while k < setup.attachments.len()
                        invariant
                            0 <= k <= setup.attachments@.len(),
                            plan@ == pre_steps(self.pre@.subrange(0, i as int)) + seq![DispatchStep::Pre(i)]
                                + attach_steps(i as int, setup.attachments@.subrange(0, k as int)),
                        decreases setup.attachments@.len() - k,
                    {
                        proof {
                            assert(setup.attachments@.subrange(0, k as int + 1).drop_last()
                                =~= setup.attachments@.subrange(0, k as int));
                        }
                        if setup.attachments[k].is_some() {
                            plan.push(DispatchStep::Attach(i, k));
                        }
                        proof {
                            assert(plan@ =~= pre_steps(self.pre@.subrange(0, i as int)) + seq![DispatchStep::Pre(i)]
                                + attach_steps(i as int, setup.attachments@.subrange(0, k as int + 1)));
                        }
                        k += 1;
                    }
                    proof {
                        assert(setup.attachments@.subrange(0, k as int) =~= setup.attachments@);
                        assert(plan@ =~= pre_steps(self.pre@.subrange(0, i as int + 1)));
                    }
                },
                _ => {
                    proof {
                        assert(plan@ =~= pre_steps(self.pre@.subrange(0, i as int + 1)));
                    }
                },
            }
            i += 1;
        }
        proof {
            assert(self.pre@.subrange(0, i as int) =~= self.pre@);
        }
        plan.push(DispatchStep::Flush);
        let mut j: usize = 0;
        while j < self.post.len()
            invariant
                0 <= j <= self.post@.len(),
                plan@ == pre_steps(self.pre@) + seq![DispatchStep::Flush] + post_steps(j as nat),
            decreases self.post@.len() - j,
        {
            plan.push(DispatchStep::Post(j));
            proof {
                assert(plan@ =~= pre_steps(self.pre@) + seq![DispatchStep::Flush] + post_steps(j as nat + 1));
            }
            j += 1;
        }
        plan
    }

    /// The order in which the device replays the ordered tasks, as indices
    /// into `tasks`: by surface, then by order key, and tasks with equal keys
    /// in the order they were appended.
    pub fn replay_order(&self) -> (r: Vec<usize>)
        ensures
            r@.len() == self.tasks@.len(),
            forall|k: int| 0 <= k < r@.len() ==> (r@[k] as int) < self.tasks@.len(),
            forall|p: int, q: int|
                0 <= p < q < r@.len() ==> replays_before(self.tasks@, #[trigger] r@[p] as int, #[trigger] r@[q] as int),
    {
        let mut order: Vec<usize> = Vec::new();
        let mut i: usize = 0;
        while i < self.tasks.len()
            invariant
                0 <= i <= self.tasks@.len(),
                order@.len() == i,
                forall|k: int| 0 <= k < order@.len() ==> (order@[k] as int) < i,
                forall|p: int, q: int|
                    0 <= p < q < order@.len() ==> replays_before(self.tasks@, #[trigger] order@[p] as int, #[trigger] order@[q] as int),
            decreases self.tasks@.len() - i,
        {
            let key = task_key(&self.tasks[i]);
            let mut p: usize = 0;
            while p < order.len() && !key_less(key, task_key(&self.tasks[order[p]]))
                invariant
                    0 <= p <= order@.len(),
                    i < self.tasks@.len(),
                    key == key_of(self.tasks@[i as int]),
                    forall|k: int| 0 <= k < order@.len() ==> (order@[k] as int) < i,
                    forall|q: int| 0 <= q < p ==> !key_lt(key, key_of(self.tasks@[#[trigger] order@[q] as int])),
                decreases order@.len() - p,
            {
                p += 1;
            }
            let ghost prev = order@;
            order.insert(p, i);
            proof {
                assert forall|a: int, b: int|
                    0 <= a < b < order@.len() implies replays_before(self.tasks@, #[trigger] order@[a] as int, #[trigger] order@[b] as int) by {
                    if b < p {
                        assert(order@[a] == prev[a] && order@[b] == prev[b]);
                    } else if b == p {
                        assert(order@[a] == prev[a]);
                        assert(!key_lt(key, key_of(self.tasks@[prev[a] as int])));
                    } else if a == p {
                        assert(order@[b] == prev[b - 1]);
                        assert(key_lt(key, key_of(self.tasks@[prev[p as int] as int])));
                        if b - 1 > p {
                            assert(replays_before(self.tasks@, prev[p as int] as int, prev[b - 1] as int));
                        }
                    } else if a < p {
                        assert(order@[a] == prev[a] && order@[b] == prev[b - 1]);
                        assert(replays_before(self.tasks@, prev[a] as int, prev[b - 1] as int));
                    } else {
                        assert(order@[a] == prev[a - 1] && order@[b] == prev[b - 1]);
                        assert(replays_before(self.tasks@, prev[a - 1] as int, prev[b - 1] as int));
                    }
                }
            }
            i += 1;
        }
        order
    }
}

fn task_key(t: &(SurfaceHandle, u64, FrameTask)) -> (r: (u32, u32, u64))
    ensures
        r == key_of(*t),
{
    (t.0.index, t.0.version, t.1)
}

fn key_less(a: (u32, u32, u64), b: (u32, u32, u64)) -> (r: bool)
    ensures
        r == key_lt(a, b),
{
    a.0 < b.0 || (a.0 == b.0 && (a.1 < b.1 || (a.1 == b.1 && a.2 < b.2)))
}

/// `plan` holds the step `s`.
pub open spec fn has_step(plan: Seq<DispatchStep>, s: DispatchStep) -> bool {
    exists|k: int| 0 <= k < plan.len() && plan[k] == s
}

/// Every step of `pre_steps` belongs to a pre-task, and pre-task `i` has its step.
pub proof fn lemma_pre_steps(pre: Seq<PreFrameTask>)
    ensures
        forall|k: int| 0 <= k < pre_steps(pre).len() ==> is_pre_step(#[trigger] pre_steps(pre)[k]),
        forall|i: usize| (i as int) < pre.len() ==> #[trigger] has_step(pre_steps(pre), DispatchStep::Pre(i)),
    decreases pre.len(),
{
    if pre.len() > 0 {
        let rest = pre.drop_last();
        lemma_pre_steps(rest);
        let n = pre.len() - 1;
        let tail = steps_of_pre(pre.last(), n);
        assert(pre_steps(pre) == pre_steps(rest) + tail);
        match pre.last() {
            PreFrameTask::CreateFrameBuffer(_, setup) => {
                lemma_attach_steps(n, setup.attachments@);
            },
            _ => {},
        }
        assert forall|k: int| 0 <= k < pre_steps(pre).len() implies is_pre_step(#[trigger] pre_steps(pre)[k]) by {
            if k >= pre_steps(rest).len() {
                assert(pre_steps(pre)[k] == tail[k - pre_steps(rest).len()]);
            }
        }
        assert forall|i: usize| (i as int) < pre.len() implies #[trigger] has_step(pre_steps(pre), DispatchStep::Pre(i)) by {
            if (i as int) < n {
                assert(has_step(pre_steps(rest), DispatchStep::Pre(i)));
                let k = choose|k: int| 0 <= k < pre_steps(rest).len() && pre_steps(rest)[k] == DispatchStep::Pre(i);
                assert(pre_steps(pre)[k] == pre_steps(rest)[k]);
            } else {
                assert(pre_steps(pre)[pre_steps(rest).len() as int] == DispatchStep::Pre(i));
            }
        }
    }
}

proof fn lemma_attach_steps(i: int, atts: Seq<Option<FrameBufferAttachment>>)
    ensures
        forall|k: int| 0 <= k < attach_steps(i, atts).len() ==> is_pre_step(#[trigger] attach_steps(i, atts)[k]),
    decreases atts.len(),
{
    if atts.len() > 0 {
        let rest = atts.drop_last();
        lemma_attach_steps(i, rest);
        let tail: Seq<DispatchStep> = if atts.last().is_some() {
            seq![DispatchStep::Attach(i as usize, (atts.len() - 1) as usize)]
        } else {
            Seq::empty()
        };
        assert(attach_steps(i, atts) == attach_steps(i, rest) + tail);
        assert forall|k: int| 0 <= k < attach_steps(i, atts).len() implies is_pre_step(#[trigger] attach_steps(i, atts)[k]) by {
            if k >= attach_steps(i, rest).len() {
                assert(attach_steps(i, atts)[k] == tail[k - attach_steps(i, rest).len()]);
            } else {
                assert(attach_steps(i, atts)[k] == attach_steps(i, rest)[k]);
            }
        }
    }
}

/// Dispatch runs every pre-task before the ordered tasks and the ordered tasks
/// before every post-task, whatever order the tasks were appended in: in the
/// plan, each pre-task step comes before the one flush of the ordered tasks,
/// which comes before each post-task step, and every task has its step.
pub proof fn lemma_phase_order(f: Frame)
    ensures
        ({
            let plan = f.spec_plan();
            &&& forall|a: int, b: int|
                0 <= a < plan.len() && 0 <= b < plan.len() && is_pre_step(#[trigger] plan[a])
                    && !is_pre_step(#[trigger] plan[b]) ==> a < b
            &&& forall|a: int, b: int|
                0 <= a < plan.len() && 0 <= b < plan.len() && #[trigger] plan[a] == DispatchStep::Flush
                    && is_post_step(#[trigger] plan[b]) ==> a < b
            &&& forall|a: int, b: int|
                0 <= a < plan.len() && 0 <= b < plan.len() && #[trigger] plan[a] == DispatchStep::Flush
                    && #[trigger] plan[b] == DispatchStep::Flush ==> a == b
            &&& forall|i: usize| (i as int) < f.pre@.len() ==> #[trigger] has_step(plan, DispatchStep::Pre(i))
            &&& forall|i: usize| (i as int) < f.post@.len() ==> #[trigger] has_step(plan, DispatchStep::Post(i))
        }),
{
    let plan = f.spec_plan();
    let ps = pre_steps(f.pre@);
    let n = ps.len();
    lemma_pre_steps(f.pre@);
    assert forall|k: int| 0 <= k < plan.len() implies (#[trigger] plan[k] == DispatchStep::Flush) == (k == n) && (is_pre_step(plan[k]) == (k < n)) && (is_post_step(plan[k]) == (k > n)) by {
        if k < n {
            assert(plan[k] == ps[k]);
        } else if k > n {
            assert(plan[k] == post_steps(f.post@.len())[k - n - 1]);
        }
    }
    assert forall|i: usize| (i as int) < f.pre@.len() implies #[trigger] has_step(plan, DispatchStep::Pre(i)) by {
        assert(has_step(ps, DispatchStep::Pre(i)));
        let k = choose|k: int| 0 <= k < ps.len() && ps[k] == DispatchStep::Pre(i);
        assert(plan[k] == ps[k]);
    }
    assert forall|i: usize| (i as int) < f.post@.len() implies #[trigger] has_step(plan, DispatchStep::Post(i)) by {
        assert(plan[n + 1 + i] == DispatchStep::Post(i));
    }
    assert forall|a: int, b: int|
        0 <= a < plan.len() && 0 <= b < plan.len() && is_pre_step(#[trigger] plan[a])
            && !is_pre_step(#[trigger] plan[b]) implies a < b by {
        assert(is_pre_step(plan[a]) == (a < n));
        assert(is_pre_step(plan[b]) == (b < n));
    }
    assert forall|a: int, b: int|
        0 <= a < plan.len() && 0 <= b < plan.len() && #[trigger] plan[a] == DispatchStep::Flush
            && is_post_step(#[trigger] plan[b]) implies a < b by {
        assert((plan[a] == DispatchStep::Flush) == (a == n));
        assert(is_post_step(plan[b]) == (b > n));
    }
    assert forall|a: int, b: int|
        0 <= a < plan.len() && 0 <= b < plan.len() && #[trigger] plan[a] == DispatchStep::Flush
            && #[trigger] plan[b] == DispatchStep::Flush implies a == b by {
        assert((plan[a] == DispatchStep::Flush) == (a == n));
        assert((plan[b] == DispatchStep::Flush) == (b == n));
    }
}

/// Two frames and a role index: producers record into the front frame while
/// the driver drains the back one; a swap exchanges the roles.
pub struct DoubleFrame {
    idx: usize,
    first: Frame,
    second: Frame,
}

impl DoubleFrame {
    pub closed spec fn front_view(&self) -> Frame {
        if self.idx == 0 {
            self.first
        } else {
            self.second
        }
    }

    pub closed spec fn back_view(&self) -> Frame {
        if self.idx == 0 {
            self.second
        } else {
            self.first
        }
    }

    pub closed spec fn role(&self) -> usize {
        self.idx
    }

    pub open spec fn wf(&self) -> bool {
        &&& self.role() < 2
        &&& self.front_view().wf()
        &&& self.back_view().wf()
    }

    /// Two empty frames, each with an arena of `capacity` bytes.
    pub fn with_capacity(capacity: usize) -> (r: DoubleFrame)
        ensures
            r.wf(),
            r.front_view().is_empty(),
            r.back_view().is_empty(),
    {
        DoubleFrame { idx: 0, first: Frame::with_capacity(capacity), second: Frame::with_capacity(capacity) }
    }

    /// The frame that producers record into. The back frame is not touched.
    pub fn front(&mut self) -> (r: &mut Frame)
        requires
            old(self).wf(),
        ensures
            *r == old(self).front_view(),
            final(self).front_view() == *final(r),
            final(self).back_view() == old(self).back_view(),
            final(self).role() == old(self).role(),
    {
        if self.idx == 0 {
            &mut self.first
        } else {
            &mut self.second
        }
    }

    /// The frame that the driver drains. The front frame is not touched.
    pub fn back(&mut self) -> (r: &mut Frame)
        requires
            old(self).wf(),
        ensures
            *r == old(self).back_view(),
            final(self).back_view() == *final(r),
            final(self).front_view() == old(self).front_view(),
            final(self).role() == old(self).role(),
    {
        if self.idx == 0 {
            &mut self.second
        } else {
            &mut self.first
        }
    }

    pub fn front_ref(&self) -> (r: &Frame)
        ensures
            *r == self.front_view(),
    {
        if self.idx == 0 {
            &self.first
        } else {
            &self.second
        }
    }

    pub fn back_ref(&self) -> (r: &Frame)
        ensures
            *r == self.back_view(),
    {
        if self.idx == 0 {
            &self.second
        } else {
            &self.first
        }
    }

    /// Puts `frame` in the back role and returns the frame that held it.
    pub fn replace_back(&mut self, frame: Frame) -> (r: Frame)
        requires
            old(self).wf(),
            frame.wf(),
        ensures
            final(self).wf(),
            r == old(self).back_view(),
            final(self).back_view() == frame,
            final(self).front_view() == old(self).front_view(),
            final(self).role() == old(self).role(),
    {
        let mut f = frame;
        if self.idx == 0 {
            core::mem::swap(&mut self.second, &mut f);
        } else {
            core::mem::swap(&mut self.first, &mut f);
        }
        f
    }

    /// Exchanges the roles of the two frames.
    pub fn swap_frames(&mut self)
        requires
            old(self).wf(),
        ensures
            final(self).wf(),
            final(self).front_view() == old(self).back_view(),
            final(self).back_view() == old(self).front_view(),
    {
        self.idx = (self.idx + 1) % 2;
    }
}

/// Recording into the front frame and swapping hands the back frame exactly
/// what was recorded and leaves an empty front, where both frames started
/// empty; recording into the new front leaves the back frame as it is.
/// `d1` is `d0` after recording through `front`, `d2` is `d1` after
/// `swap_frames`, and `d3` is `d2` after recording through `front` again.
pub proof fn lemma_double_buffer_isolation(d0: DoubleFrame, d1: DoubleFrame, d2: DoubleFrame, d3: DoubleFrame, n: nat)
    requires
        d0.wf(),
        d0.front_view().is_empty(),
        d0.back_view().is_empty(),
        d1.back_view() == d0.back_view(),
        d1.front_view().task_count() == n,
        d2.front_view() == d1.back_view(),
        d2.back_view() == d1.front_view(),
        d3.back_view() == d2.back_view(),
    ensures
        d2.front_view().is_empty(),
        d2.back_view().task_count() == n,
        d3.back_view().task_count() == n,
        d3.back_view() == d1.front_view(),
{
}

} // verus!
