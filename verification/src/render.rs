//! Data-parallel rendering adapter: fans a pixel workload out over pooled
//! workers and exposes a progressively readable output buffer. The external
//! renderer is a pure function from pixel coordinates to four color bytes,
//! handed in as a closure; the geometry behind it is out of scope here.

use vstd::prelude::*;

use crate::pool::Awaitable;
use crate::pool::Channel;
use crate::pool::Dispatch;
use crate::pool::DispatchFailure;
use crate::pool::FaultPlan;
use crate::pool::Task;
use crate::pool::WorkerPool;
use crate::pool::WorkerState;

verus! {

/// What the rendering adapter ships to pooled workers: the execution loop
/// of one logical thread of the data-parallel runtime, or the single
/// installed parallel for-each over the whole output buffer.
#[derive(Clone, Copy, PartialEq, Eq, Structural, Debug)]
pub enum RenderWork {
    /// One logical thread, proxied onto a pooled worker instead of a true
    /// OS thread.
    ThreadBody,
    /// The whole parallel for-each, submitted as one notifying unit so the
    /// initiating context is never blocked.
    ParallelFor,
}

/// The raster dimensions the adapter reads from a scene description. The
/// scene's geometry lives with the external renderer.
#[derive(Clone, Copy, PartialEq, Eq, Structural, Debug)]
pub struct Scene {
    pub width: u32,
    pub height: u32,
}

/// A displayable frame: the output region's bytes together with the
/// dimensions an image adapter needs.
pub struct ImageFrame {
    pub data: Vec<u8>,
    pub width: u32,
    pub height: u32,
}

/// The x coordinate of pixel `i` in row-major order.
pub open spec fn pixel_x(i: int, width: int) -> int {
    i % width
}

/// The y coordinate of pixel `i` in row-major order.
pub open spec fn pixel_y(i: int, width: int) -> int {
    i / width
}

/// Chunk `i` of buffer `b` holds four bytes the renderer could have
/// returned for pixel `i`.
pub open spec fn chunk_rendered<F: Fn(u32, u32) -> (u8, u8, u8, u8)>(b: Seq<u8>, i: int, width: int, renderer: F) -> bool {
    exists|c: (u8, u8, u8, u8)|
        {
            &&& #[trigger] call_ensures(
                renderer,
                (pixel_x(i, width) as u32, pixel_y(i, width) as u32),
                c,
            )
            &&& b[4 * i] == c.0
            &&& b[4 * i + 1] == c.1
            &&& b[4 * i + 2] == c.2
            &&& b[4 * i + 3] == c.3
        }
}

/// Every chunk of `b` has been written with the renderer's output for its
/// pixel.
pub open spec fn fully_rendered<F: Fn(u32, u32) -> (u8, u8, u8, u8)>(b: Seq<u8>, width: int, height: int, renderer: F) -> bool {
    &&& b.len() == 4 * width * height
    &&& forall|i: int| 0 <= i < width * height ==> chunk_rendered(b, i, width, renderer)
}

/// A renderer is deterministic when its contract admits a single result
/// per pixel coordinate.
pub open spec fn deterministic<F: Fn(u32, u32) -> (u8, u8, u8, u8)>(renderer: F) -> bool {
    forall|a: (u32, u32), c1: (u8, u8, u8, u8), c2: (u8, u8, u8, u8)|
        #[trigger] call_ensures(renderer, a, c1) && #[trigger] call_ensures(renderer, a, c2)
            ==> c1 == c2
}

/// With a deterministic renderer the fully rendered output is unique:
/// whatever concurrency each run used, two rendered buffers of the same
/// scene are byte-identical.
pub proof fn lemma_deterministic_render_unique<F: Fn(u32, u32) -> (u8, u8, u8, u8)>(
    b1: Seq<u8>,
    b2: Seq<u8>,
    width: int,
    height: int,
    renderer: F,
)
    requires
        deterministic(renderer),
        fully_rendered(b1, width, height, renderer),
        fully_rendered(b2, width, height, renderer),
    ensures
        b1 == b2,
{
    assert forall|j: int| 0 <= j < b1.len() implies b1[j] == b2[j] by {
        let i = j / 4;
        let r = j % 4;
        assert(j == 4 * i + r && 0 <= r < 4) by {
            vstd::arithmetic::div_mod::lemma_fundamental_div_mod(j, 4);
        }
        assert((4 * width) * height == 4 * (width * height)) by (nonlinear_arith);
        assert(0 <= i < width * height);
        assert(chunk_rendered(b1, i, width, renderer));
        assert(chunk_rendered(b2, i, width, renderer));
        let c1 = choose|c: (u8, u8, u8, u8)|
            {
                &&& call_ensures(
                    renderer,
                    (pixel_x(i, width) as u32, pixel_y(i, width) as u32),
                    c,
                )
                &&& b1[4 * i] == c.0
                &&& b1[4 * i + 1] == c.1
                &&& b1[4 * i + 2] == c.2
                &&& b1[4 * i + 3] == c.3
            };
        let c2 = choose|c: (u8, u8, u8, u8)|
            {
                &&& call_ensures(
                    renderer,
                    (pixel_x(i, width) as u32, pixel_y(i, width) as u32),
                    c,
                )
                &&& b2[4 * i] == c.0
                &&& b2[4 * i + 1] == c.1
                &&& b2[4 * i + 2] == c.2
                &&& b2[4 * i + 3] == c.3
            };
        assert(c1 == c2);
        assert(j == 4 * i + r);
    }
    assert(b1 =~= b2);
}

/// One in-flight parallel render: the shared output buffer the workers
/// write into in disjoint four-byte chunks, the per-chunk written flags
/// the snapshot reader may consult, and the awaitable that resolves once
/// every chunk has been written.
pub struct RenderingScene<F> {
    renderer: F,
    width: u32,
    height: u32,
    buffer: Vec<u8>,
    written: Vec<bool>,
    done: Dispatch,
    ticket: Awaitable,
}

impl Scene {
    /// Reads the raster dimensions of a scene description. Deserializing a
    /// full scene is an external collaborator's job.
    pub fn new(width: u32, height: u32) -> (s: Scene)
        ensures
            s.width == width,
            s.height == height,
    {
        Scene { width, height }
    }

    /// How many pixels a render of this scene writes.
    pub open spec fn pixel_count(self) -> int {
        self.width * self.height
    }

    /// Installs one parallel for-each over a fresh zeroed output buffer:
    /// proxies `concurrency - 1` logical threads onto pooled workers (the
    /// initiating context counts as one; a failed thread-body dispatch is
    /// not propagated, mirroring the adapter's spawn handler), then submits
    /// the for-each itself as one notifying unit of work, so the caller is
    /// never blocked.
    pub fn render<F: Fn(u32, u32) -> (u8, u8, u8, u8)>(
        self,
        concurrency: usize,
        pool: &mut WorkerPool<RenderWork, Vec<u8>>,
        renderer: F,
    ) -> (r: Result<RenderingScene<F>, DispatchFailure<RenderWork>>)
        requires
            concurrency >= 1,
            4 * self.pixel_count() <= usize::MAX,
            old(pool).wf(),
        ensures
            final(pool).wf(),
            old(pool).fault_plan() == (FaultPlan { failing_spawns: 0, failing_posts: 0 }) ==> {
                &&& r is Ok
                &&& final(pool).fault_plan() == old(pool).fault_plan()
                &&& final(pool).handle_count() == old(pool).handle_count() + concurrency
                &&& forall|j: int|
                    old(pool).handle_count() <= j < old(pool).handle_count() + concurrency - 1
                        ==> (#[trigger] final(pool).tasks()[j] matches Some(t) && t.work
                        == RenderWork::ThreadBody)
            },
            r matches Err(e) ==> (e matches DispatchFailure::SpawnFailed {
                work: RenderWork::ParallelFor,
            } || e matches DispatchFailure::PostFailed { work: RenderWork::ParallelFor }),
            r is Err ==> final(pool).channels() == old(pool).channels(),
            r matches Ok(rs) ==> {
                &&& rs.wf()
                &&& rs.spec_renderer() == renderer
                &&& rs.scene_width() == self.width
                &&& rs.scene_height() == self.height
                &&& forall|i: int| 0 <= i < rs.flags().len() ==> !rs.flags()[i]
                &&& forall|j: int| 0 <= j < rs.output().len() ==> rs.output()[j] == 0
                &&& (rs.worker() as int) < final(pool).worker_count()
                &&& final(pool).worker_state(rs.worker() as int) == (WorkerState::Posted {
                    handle: rs.handle(),
                    notify: Some(rs.promise_index() as usize),
                })
                &&& rs.handle() as int == final(pool).handle_count() - 1
                &&& final(pool).tasks()[rs.handle() as int] == Some(
                    Task { work: RenderWork::ParallelFor, worker: rs.worker() },
                )
                &&& final(pool).channels() == old(pool).channels().push(Channel::Pending)
                &&& final(pool).channel(rs.promise_index()) is Pending
                &&& final(pool).slot_contents(rs.promise_index()) is None
                &&& rs.promise_index() == final(pool).awaitable_count() - 1
            },
    {
        let mut threads: usize = 0;
        while threads + 1 < concurrency
            invariant
                concurrency >= 1,
                threads < concurrency,
                pool.wf(),
                pool.channels() == old(pool).channels(),
                forall|j: int| 0 <= j < pool.awaitable_count() ==> pool.slot_contents(j) == old(
                    pool,
                ).slot_contents(j),
                old(pool).fault_plan() == (FaultPlan { failing_spawns: 0, failing_posts: 0 })
                    ==> {
                    &&& pool.fault_plan() == old(pool).fault_plan()
                    &&& pool.handle_count() == old(pool).handle_count() + threads
                    &&& forall|j: int|
                        old(pool).handle_count() <= j < old(pool).handle_count() + threads
                            ==> (#[trigger] pool.tasks()[j] matches Some(t) && t.work
                            == RenderWork::ThreadBody)
                },
            decreases concurrency - threads,
        {
            let ghost at_entry = *pool;
            // one logical thread's execution loop, proxied onto a pooled
            // worker; the adapter's spawn handler does not surface a failure
            let outcome = pool.run(RenderWork::ThreadBody);
            proof {
                if old(pool).fault_plan() == (FaultPlan { failing_spawns: 0, failing_posts: 0 }) {
                    assert(outcome is Ok);
                    if let Ok(d) = outcome {
                        assert(pool.tasks() == at_entry.tasks().push(
                            Some(Task { work: RenderWork::ThreadBody, worker: d.worker }),
                        ));
                        assert forall|j: int|
                            old(pool).handle_count() <= j < old(pool).handle_count() + threads + 1
                        implies (#[trigger] pool.tasks()[j] matches Some(t) && t.work
                            == RenderWork::ThreadBody) by {
                            if j < at_entry.handle_count() {
                                assert(pool.tasks()[j] == at_entry.tasks()[j]);
                            } else {
                                assert(pool.tasks()[j] == Some(
                                    Task { work: RenderWork::ThreadBody, worker: d.worker },
                                ));
                            }
                        }
                    }
                }
            }
            threads = threads + 1;
        }
        let pixels = (self.width as usize) * (self.height as usize);
        let mut buffer: Vec<u8> = Vec::new();
        let mut written: Vec<bool> = Vec::new();
        let mut i: usize = 0;
        while i < pixels
            invariant
                pixels == self.pixel_count(),
                4 * pixels <= usize::MAX,
                i <= pixels,
                buffer@.len() == 4 * i,
                written@.len() == i,
                forall|j: int| 0 <= j < buffer@.len() ==> buffer@[j] == 0,
                forall|j: int| 0 <= j < written@.len() ==> !written@[j],
            decreases pixels - i,
        {
            buffer.push(0);
            buffer.push(0);
            buffer.push(0);
            buffer.push(0);
            written.push(false);
            i = i + 1;
        }
        proof {
            assert(4 * ((self.width as int) * (self.height as int)) == 4 * (self.width as int)
                * (self.height as int)) by (nonlinear_arith);
        }
        let ghost mid = *pool;
        match pool.run_notify(RenderWork::ParallelFor) {
            Ok((done, ticket)) => {
                proof {
                    let posted = WorkerState::Posted {
                        handle: done.handle,
                        notify: Some(ticket.index() as usize),
                    };
                    if mid.idle_workers().len() > 0 {
                        assert(pool.workers() == mid.workers().update(done.worker as int, posted));
                        assert(mid.workers().update(done.worker as int, posted).len()
                            == mid.workers().len());
                        assert((done.worker as int) < mid.workers().len());
                        assert(mid.workers().update(done.worker as int, posted)[done.worker as int]
                            == posted);
                        assert(pool.workers()[done.worker as int] == posted);
                    } else {
                        assert(pool.workers() == mid.workers().push(posted));
                        assert(mid.workers().push(posted)[mid.workers().len() as int] == posted);
                        assert(pool.workers()[done.worker as int] == posted);
                    }
                    assert(pool.tasks() == mid.tasks().push(
                        Some(Task { work: RenderWork::ParallelFor, worker: done.worker }),
                    ));
                    assert(pool.tasks()[done.handle as int] == Some(
                        Task { work: RenderWork::ParallelFor, worker: done.worker },
                    ));
                    assert(pool.channels() =~= old(pool).channels().push(Channel::Pending));
                }
                Ok(
                    RenderingScene {
                        renderer,
                        width: self.width,
                        height: self.height,
                        buffer,
                        written,
                        done,
                        ticket,
                    },
                )
            },
            Err(e) => Err(e),
        }
    }
}

impl<F: Fn(u32, u32) -> (u8, u8, u8, u8)> RenderingScene<F> {
    /// The renderer this render was installed over.
    pub closed spec fn spec_renderer(self) -> F {
        self.renderer
    }

    pub closed spec fn scene_width(self) -> u32 {
        self.width
    }

    pub closed spec fn scene_height(self) -> u32 {
        self.height
    }

    /// The bytes of the shared output region, as they stand right now.
    pub closed spec fn output(self) -> Seq<u8> {
        self.buffer@
    }

    /// The per-chunk written flags.
    pub closed spec fn flags(self) -> Seq<bool> {
        self.written@
    }

    /// The pooled worker the parallel for-each was posted to.
    pub closed spec fn worker(self) -> usize {
        self.done.worker
    }

    /// The task handle the parallel for-each was registered under.
    pub closed spec fn handle(self) -> usize {
        self.done.handle
    }

    /// The completion channel this render resolves through.
    pub closed spec fn promise_index(self) -> int {
        self.ticket.index()
    }

    /// Structural invariant: the buffer holds one four-byte chunk per
    /// pixel, the flag roster holds one flag per chunk, and every written
    /// chunk holds the renderer's output for its pixel.
    pub open spec fn wf(self) -> bool {
        &&& self.output().len() == 4 * (self.scene_width() as int) * (self.scene_height() as int)
        &&& self.flags().len() == (self.scene_width() as int) * (self.scene_height() as int)
        &&& forall|i: int| 0 <= i < self.flags().len() && self.flags()[i] ==> chunk_rendered(
            self.output(),
            i,
            self.scene_width() as int,
            self.spec_renderer(),
        )
    }

    /// The awaitable that resolves once the render completes: a caller
    /// hands it to `WorkerPool::take_result`.
    pub fn promise(&self) -> (a: Awaitable)
        ensures
            a.index() == self.promise_index(),
    {
        self.ticket
    }

    /// The dispatch carrying the parallel for-each, so a host can drive the
    /// posted worker.
    pub fn dispatch(&self) -> (d: Dispatch)
        ensures
            d.worker == self.worker(),
            d.handle == self.handle(),
    {
        self.done
    }

    /// Whether chunk `i` has been written yet.
    pub fn chunk_written(&self, i: usize) -> (b: bool)
        requires
            (i as int) < self.flags().len(),
        ensures
            b == self.flags()[i as int],
    {
        self.written[i]
    }

    /// One iteration of the parallel for-each: derives the pixel's
    /// coordinates from the chunk index, asks the external renderer for its
    /// color, and writes the four color bytes into the chunk — a chunk is
    /// written exactly once.
    pub fn render_chunk(&mut self, i: usize)
        requires
            old(self).wf(),
            (i as int) < old(self).flags().len(),
            !old(self).flags()[i as int],
            call_requires(
                old(self).spec_renderer(),
                (
                    pixel_x(i as int, old(self).scene_width() as int) as u32,
                    pixel_y(i as int, old(self).scene_width() as int) as u32,
                ),
            ),
        ensures
            final(self).wf(),
            final(self).spec_renderer() == old(self).spec_renderer(),
            final(self).scene_width() == old(self).scene_width(),
            final(self).scene_height() == old(self).scene_height(),
            final(self).worker() == old(self).worker(),
            final(self).handle() == old(self).handle(),
            final(self).promise_index() == old(self).promise_index(),
            final(self).flags() == old(self).flags().update(i as int, true),
            chunk_rendered(
                final(self).output(),
                i as int,
                final(self).scene_width() as int,
                final(self).spec_renderer(),
            ),
            forall|j: int| 0 <= j < final(self).output().len() && !(4 * i <= j < 4 * i + 4)
                ==> final(self).output()[j] == old(self).output()[j],
    {
        let total = self.buffer.len();
        proof {
            assert((self.width as int) * (self.height as int) > 0);
            assert(4 * ((self.width as int) * (self.height as int)) == 4 * (self.width as int)
                * (self.height as int)) by (nonlinear_arith);
        }
        let w = self.width as usize;
        let x = (i % w) as u32;
        let y = (i / w) as u32;
        proof {
            assert((i as int) / (self.width as int) < self.height as int) by (nonlinear_arith)
                requires
                    (i as int) < (self.width as int) * (self.height as int),
                    self.width as int > 0,
            ;
            assert(x as int == pixel_x(i as int, self.width as int));
            assert(y as int == pixel_y(i as int, self.width as int));
            assert(4 * (i as int) + 4 <= 4 * ((self.width as int) * (self.height as int)))
                by (nonlinear_arith)
                requires
                    (i as int) < (self.width as int) * (self.height as int),
            ;
            assert(4 * (i as int) + 4 <= total as int);
        }
        let c = (self.renderer)(x, y);
        let base = 4 * i;
        self.buffer.set(base, c.0);
        self.buffer.set(base + 1, c.1);
        self.buffer.set(base + 2, c.2);
        self.buffer.set(base + 3, c.3);
        self.written.set(i, true);
        proof {
            let prev = *old(self);
            let width = self.width as int;
            assert(chunk_rendered(self.buffer@, i as int, width, self.renderer));
            assert forall|j: int|
                0 <= j < self.written@.len() && self.written@[j] implies chunk_rendered(
                self.buffer@,
                j,
                width,
                self.renderer,
            ) by {
                if j != i as int {
                    assert(prev.written@[j]);
                    assert(chunk_rendered(prev.buffer@, j, width, self.renderer));
                    let c0 = choose|c: (u8, u8, u8, u8)|
                        {
                            &&& call_ensures(
                                self.renderer,
                                (pixel_x(j, width) as u32, pixel_y(j, width) as u32),
                                c,
                            )
                            &&& prev.buffer@[4 * j] == c.0
                            &&& prev.buffer@[4 * j + 1] == c.1
                            &&& prev.buffer@[4 * j + 2] == c.2
                            &&& prev.buffer@[4 * j + 3] == c.3
                        };
                    assert(self.buffer@[4 * j] == c0.0);
                    assert(self.buffer@[4 * j + 1] == c0.1);
                    assert(self.buffer@[4 * j + 2] == c0.2);
                    assert(self.buffer@[4 * j + 3] == c0.3);
                }
            }
        }
    }

    /// The installed parallel for-each, run over every chunk of a fresh
    /// render: for each chunk index the pixel is computed and its four
    /// bytes written, each chunk exactly once.
    pub fn render_all(&mut self)
        requires
            old(self).wf(),
            forall|i: int| 0 <= i < old(self).flags().len() ==> !old(self).flags()[i],
            forall|a: (u32, u32)| #[trigger] call_requires(old(self).spec_renderer(), a),
        ensures
            final(self).wf(),
            final(self).spec_renderer() == old(self).spec_renderer(),
            final(self).scene_width() == old(self).scene_width(),
            final(self).scene_height() == old(self).scene_height(),
            final(self).worker() == old(self).worker(),
            final(self).handle() == old(self).handle(),
            final(self).promise_index() == old(self).promise_index(),
            forall|i: int| 0 <= i < final(self).flags().len() ==> final(self).flags()[i],
            fully_rendered(
                final(self).output(),
                final(self).scene_width() as int,
                final(self).scene_height() as int,
                final(self).spec_renderer(),
            ),
    {
        let pixels = self.written.len();
        let mut i: usize = 0;
        while i < pixels
            invariant
                self.wf(),
                pixels == self.flags().len(),
                i <= pixels,
                self.spec_renderer() == old(self).spec_renderer(),
                self.scene_width() == old(self).scene_width(),
                self.scene_height() == old(self).scene_height(),
                self.worker() == old(self).worker(),
                self.handle() == old(self).handle(),
                self.promise_index() == old(self).promise_index(),
                forall|j: int| 0 <= j < pixels ==> (self.flags()[j] <==> j < i),
                forall|a: (u32, u32)| #[trigger] call_requires(self.spec_renderer(), a),
            decreases pixels - i,
        {
            self.render_chunk(i);
            i = i + 1;
        }
        proof {
            assert(4 * ((self.width as int) * (self.height as int)) == 4 * (self.width as int)
                * (self.height as int)) by (nonlinear_arith);
            assert forall|j: int| 0 <= j < (self.width as int) * (self.height as int)
            implies chunk_rendered(
                self.buffer@,
                j,
                self.width as int,
                self.renderer,
            ) by {
                assert(self.flags()[j]);
            }
        }
    }

    /// Completion: once every chunk has been written, the worker running
    /// the parallel for-each stores the fully written buffer as the
    /// dispatch's resolution value and posts its "done" message; the
    /// awaitable returned by the render then resolves to those bytes.
    pub fn finish(&self, pool: &mut WorkerPool<RenderWork, Vec<u8>>)
        requires
            self.wf(),
            forall|i: int| 0 <= i < self.flags().len() ==> self.flags()[i],
            old(pool).wf(),
            (self.worker() as int) < old(pool).worker_count(),
            old(pool).worker_state(self.worker() as int) == (WorkerState::Running {
                notify: Some(self.promise_index() as usize),
            }),
            0 <= self.promise_index() < old(pool).awaitable_count(),
        ensures
            final(pool).wf(),
            final(pool).channel(self.promise_index()) matches Channel::Sent(data) && {
                &&& data@ == self.output()
                &&& fully_rendered(
                    data@,
                    self.scene_width() as int,
                    self.scene_height() as int,
                    self.spec_renderer(),
                )
            },
            final(pool).awaitable_count() == old(pool).awaitable_count(),
            final(pool).worker_count() == old(pool).worker_count(),
            final(pool).idle_workers() == old(pool).idle_workers().push(self.worker()),
            final(pool).worker_state(self.worker() as int) is Idle,
            final(pool).tasks() == old(pool).tasks(),
            final(pool).fault_plan() == old(pool).fault_plan(),
    {
        let data = copy_bytes(&self.buffer);
        proof {
            assert(4 * ((self.width as int) * (self.height as int)) == 4 * (self.width as int)
                * (self.height as int)) by (nonlinear_arith);
            assert forall|i: int| 0 <= i < (self.width as int) * (self.height as int)
            implies chunk_rendered(
                data@,
                i,
                self.width as int,
                self.renderer,
            ) by {
                assert(self.flags()[i]);
            }
        }
        let ghost mid = *pool;
        let ghost sent = data;
        pool.store_result(self.done.worker, data);
        proof {
            self.ticket.lemma_index_bounds();
            let stored = WorkerState::Stored { notify: self.ticket.index() as usize };
            assert(pool.workers() == mid.workers().update(self.done.worker as int, stored));
            assert(pool.worker_state(self.done.worker as int) == stored);
            assert((self.promise_index() as usize) as int == self.ticket.index());
            assert(pool.slot_contents(self.ticket.index()) == Some(sent));
        }
        pool.worker_done(self.done.worker);
        proof {
            assert(pool.channel(self.ticket.index()) == Channel::Sent(sent));
            assert(pool.workers() == mid.workers().update(
                self.done.worker as int,
                WorkerState::Stored { notify: self.ticket.index() as usize },
            ).update(self.done.worker as int, WorkerState::Idle));
            assert(pool.worker_state(self.done.worker as int) is Idle);
        }
    }

    /// A progressive snapshot: wraps the output region's bytes so far —
    /// whatever their completeness, visual tearing is tolerated by design —
    /// into a displayable frame. It never fails, and the frame's data
    /// length is always exactly four bytes per pixel of the scene.
    pub fn image_so_far(&self) -> (frame: ImageFrame)
        requires
            self.wf(),
        ensures
            frame.width == self.scene_width(),
            frame.height == self.scene_height(),
            frame.data@ == self.output(),
            frame.data@.len() == 4 * (self.scene_width() as int) * (self.scene_height() as int),
    {
        ImageFrame { data: copy_bytes(&self.buffer), width: self.width, height: self.height }
    }
}

/// Drives one render to completion on the calling context, the way a host
/// does it: installs the parallel for-each, takes it back through the
/// worker entry point, runs every chunk — each exactly once — then stores
/// the finished buffer and delivers the "done" message, and resolves the
/// awaitable. The returned bytes hold the renderer's output for every
/// pixel of the scene.
pub fn render_to_completion<F: Fn(u32, u32) -> (u8, u8, u8, u8)>(
    scene: Scene,
    concurrency: usize,
    pool: &mut WorkerPool<RenderWork, Vec<u8>>,
    renderer: F,
) -> (r: Result<Vec<u8>, DispatchFailure<RenderWork>>)
    requires
        concurrency >= 1,
        4 * scene.pixel_count() <= usize::MAX,
        old(pool).wf(),
        forall|a: (u32, u32)| #[trigger] call_requires(renderer, a),
    ensures
        final(pool).wf(),
        old(pool).fault_plan() == (FaultPlan { failing_spawns: 0, failing_posts: 0 })
            ==> r is Ok,
        r matches Err(e) ==> (e matches DispatchFailure::SpawnFailed {
            work: RenderWork::ParallelFor,
        } || e matches DispatchFailure::PostFailed { work: RenderWork::ParallelFor }),
        r matches Ok(data) ==> fully_rendered(
            data@,
            scene.width as int,
            scene.height as int,
            renderer,
        ),
{
    let mut rendering = match scene.render(concurrency, pool, renderer) {
        Ok(rs) => rs,
        Err(e) => {
            return Err(e);
        },
    };
    let ghost installed = *pool;
    // the worker's entry point materializes the installed for-each from
    // its posted handle
    let taken = pool.child_entry_point(rendering.dispatch().handle);
    proof {
        assert(installed.tasks()[rendering.handle() as int] == Some(
            Task { work: RenderWork::ParallelFor, worker: rendering.worker() },
        ));
        assert(taken is Ok);
        let running = WorkerState::Running { notify: Some(rendering.promise_index() as usize) };
        assert(pool.workers() == installed.workers().update(rendering.worker() as int, running));
        assert(pool.worker_state(rendering.worker() as int) == running);
        assert(pool.awaitable_count() == installed.awaitable_count());
        assert(rendering.spec_renderer() == renderer);
    }
    if taken.is_err() {
        // unreachable: the handle was just posted
        return Err(DispatchFailure::PostFailed { work: RenderWork::ParallelFor });
    }
    // every chunk of the for-each, each written exactly once
    rendering.render_all();
    // store the finished buffer, deliver the done message
    rendering.finish(pool);
    // the awaitable has resolved to the finished bytes
    match pool.take_result(rendering.promise()) {
        Some(data) => Ok(data),
        None => {
            proof {
                assert(false);
            }
            Err(DispatchFailure::PostFailed { work: RenderWork::ParallelFor })
        },
    }
}

/// A byte-for-byte copy of a buffer: the reader's unsynchronized view of
/// the shared output region.
fn copy_bytes(v: &Vec<u8>) -> (r: Vec<u8>)
    ensures
        r@ == v@,
{
    let mut r: Vec<u8> = Vec::new();
    let mut i: usize = 0;
    let n = v.len();
    while i < n
        invariant
            n == v@.len(),
            i <= n,
            r@ == v@.subrange(0, i as int),
        decreases n - i,
    {
        r.push(v[i]);
        proof {
            assert(r@ =~= v@.subrange(0, i + 1));
        }
        i = i + 1;
    }
    proof {
        assert(r@ =~= v@);
    }
    r
}

} // verus!
