//! The renderer boundary: draw primitives buffered as plain data.
//!
//! The core pushes primitives during the draw phase; the GPU frontend
//! drains each manager once per frame and turns the batch into draw calls.
//! Each manager enforces the instance budget its GPU buffer was allocated
//! with, surfacing `CapacityExceeded` instead of overrunning it.

use vstd::prelude::*;
use crate::common::Error;
use crate::entity::{Position, Vec2i};
use crate::palette::Rgb;

verus! {

/// One tile-shaped instance: a translation, a scale and a fill color.
#[derive(Debug, Clone, Copy, PartialEq, Eq, Structural)]
pub struct Instance {
    pub pos: Position,
    pub scale: Vec2i,
    pub col: Rgb,
}

/// A bounded batch of tile instances.
#[derive(Debug)]
pub struct InstancedShapeManager {
    instances: Vec<Instance>,
    max_instances: usize,
}

impl InstancedShapeManager {
    /// The batch gathered so far, oldest first.
    pub closed spec fn batch(&self) -> Seq<Instance> {
        self.instances@
    }

    /// The instance budget the GPU buffer was allocated with.
    pub closed spec fn capacity(&self) -> usize {
        self.max_instances
    }

    pub fn new(max_instances: usize) -> (r: Self)
        ensures
            r.batch() == Seq::<Instance>::empty(),
            r.capacity() == max_instances,
    {
        let r = InstancedShapeManager { instances: Vec::new(), max_instances };
        proof {
            assert(r.batch() =~= Seq::<Instance>::empty());
        }
        r
    }

    /// Appends one instance; refused with `CapacityExceeded` when the batch
    /// is at the buffer's budget.
    pub fn push_instance(&mut self, instance: Instance) -> (r: Result<(), Error>)
        ensures
            old(self).batch().len() < old(self).capacity() ==> r == Ok::<(), Error>(()) && final(self).batch() == old(self).batch().push(instance),
            old(self).batch().len() >= old(self).capacity() ==> r == Err::<(), Error>(
                Error::CapacityExceeded,
            ) && final(self).batch() == old(self).batch(),
            final(self).capacity() == old(self).capacity(),
    {
        if self.instances.len() < self.max_instances {
            self.instances.push(instance);
            Ok(())
        } else {
            Err(Error::CapacityExceeded)
        }
    }

    /// Hands the whole batch to the frontend, oldest first, and starts the
    /// next one empty.
    pub fn draw(&mut self) -> (r: Vec<Instance>)
        ensures
            r@ == old(self).batch(),
            final(self).batch() == Seq::<Instance>::empty(),
            final(self).capacity() == old(self).capacity(),
    {
        let mut out: Vec<Instance> = Vec::new();
        core::mem::swap(&mut out, &mut self.instances);
        proof {
            assert(self.instances@ =~= Seq::<Instance>::empty());
        }
        out
    }
}

/// One fireball sprite: a center, a fill color and a radius in sub-units.
#[derive(Debug, Clone, Copy, PartialEq, Eq, Structural)]
pub struct Fireball {
    pub pos: Vec2i,
    pub col: Rgb,
    pub radius: i64,
}

/// A bounded batch of fireball sprites.
#[derive(Debug)]
pub struct FireballManager {
    fireballs: Vec<Fireball>,
    max_fireballs: usize,
}

impl FireballManager {
    /// The batch gathered so far, oldest first.
    pub closed spec fn batch(&self) -> Seq<Fireball> {
        self.fireballs@
    }

    /// The sprite budget the GPU buffer was allocated with.
    pub closed spec fn capacity(&self) -> usize {
        self.max_fireballs
    }

    pub fn new(max_fireballs: usize) -> (r: Self)
        ensures
            r.batch() == Seq::<Fireball>::empty(),
            r.capacity() == max_fireballs,
    {
        let r = FireballManager { fireballs: Vec::new(), max_fireballs };
        proof {
            assert(r.batch() =~= Seq::<Fireball>::empty());
        }
        r
    }

    /// Appends one sprite; refused with `CapacityExceeded` when the batch
    /// is at the buffer's budget.
    pub fn push(&mut self, fireball: Fireball) -> (r: Result<(), Error>)
        ensures
            old(self).batch().len() < old(self).capacity() ==> r == Ok::<(), Error>(()) && final(self).batch() == old(self).batch().push(fireball),
            old(self).batch().len() >= old(self).capacity() ==> r == Err::<(), Error>(
                Error::CapacityExceeded,
            ) && final(self).batch() == old(self).batch(),
            final(self).capacity() == old(self).capacity(),
    {
        if self.fireballs.len() < self.max_fireballs {
            self.fireballs.push(fireball);
            Ok(())
        } else {
            Err(Error::CapacityExceeded)
        }
    }

    /// Hands the whole batch to the frontend, oldest first, and starts the
    /// next one empty.
    pub fn draw(&mut self) -> (r: Vec<Fireball>)
        ensures
            r@ == old(self).batch(),
            final(self).batch() == Seq::<Fireball>::empty(),
            final(self).capacity() == old(self).capacity(),
    {
        let mut out: Vec<Fireball> = Vec::new();
        core::mem::swap(&mut out, &mut self.fireballs);
        proof {
            assert(self.fireballs@ =~= Seq::<Fireball>::empty());
        }
        out
    }
}

/// One corner of a swoop quad: a point, its texture coordinate and an
/// opacity in thousandths.
#[derive(Debug, Clone, Copy, PartialEq, Eq, Structural)]
pub struct SwoopVertex {
    pub pos: Vec2i,
    pub uv: Vec2i,
    pub alpha: i64,
}

/// One swoop: two triangles, six vertices.
#[derive(Debug, Clone, Copy)]
pub struct Swoop {
    pub vertices: [SwoopVertex; 6],
}

/// A bounded batch of swoop vertices; each swoop takes six slots.
#[derive(Debug)]
pub struct SwoopManager {
    vertices: Vec<SwoopVertex>,
    max_vertices: usize,
}

impl SwoopManager {
    /// The vertex batch gathered so far, oldest first.
    pub closed spec fn batch(&self) -> Seq<SwoopVertex> {
        self.vertices@
    }

    /// The vertex budget the GPU buffer was allocated with.
    pub closed spec fn capacity(&self) -> usize {
        self.max_vertices
    }

    pub fn new(max_swoops: usize) -> (r: Self)
        requires
            max_swoops * 6 <= usize::MAX,
        ensures
            r.batch() == Seq::<SwoopVertex>::empty(),
            r.capacity() == max_swoops * 6,
    {
        let r = SwoopManager { vertices: Vec::new(), max_vertices: max_swoops * 6 };
        proof {
            assert(r.batch() =~= Seq::<SwoopVertex>::empty());
        }
        r
    }

    /// Appends one swoop's six vertices, in order; refused with
    /// `CapacityExceeded`, leaving the batch alone, when fewer than six
    /// slots are free.
    pub fn push(&mut self, swoop: Swoop) -> (r: Result<(), Error>)
        ensures
            old(self).batch().len() + 6 <= old(self).capacity() ==> r == Ok::<(), Error>(())
                && final(self).batch() == old(self).batch() + swoop.vertices@,
            old(self).batch().len() + 6 > old(self).capacity() ==> r == Err::<(), Error>(
                Error::CapacityExceeded,
            ) && final(self).batch() == old(self).batch(),
            final(self).capacity() == old(self).capacity(),
    {
        if self.max_vertices >= 6 && self.vertices.len() <= self.max_vertices - 6 {
            let ghost before = self.vertices@;
            let mut l: usize = 0;
            while l < 6
                invariant
                    l <= 6,
                    self.vertices@ == before + swoop.vertices@.take(l as int),
                    self.max_vertices == old(self).max_vertices,
                decreases 6 - l,
            {
                self.vertices.push(swoop.vertices[l]);
                proof {
                    assert(before + swoop.vertices@.take(l + 1) =~= (before
                        + swoop.vertices@.take(l as int)).push(swoop.vertices@[l as int]));
                }
                l = l + 1;
            }
            proof {
                assert(swoop.vertices@.take(6) =~= swoop.vertices@);
            }
            Ok(())
        } else {
            Err(Error::CapacityExceeded)
        }
    }

    /// Hands the whole vertex batch to the frontend, oldest first, and
    /// starts the next one empty.
    pub fn draw(&mut self) -> (r: Vec<SwoopVertex>)
        ensures
            r@ == old(self).batch(),
            final(self).batch() == Seq::<SwoopVertex>::empty(),
            final(self).capacity() == old(self).capacity(),
    {
        let mut out: Vec<SwoopVertex> = Vec::new();
        core::mem::swap(&mut out, &mut self.vertices);
        proof {
            assert(self.vertices@ =~= Seq::<SwoopVertex>::empty());
        }
        out
    }
}

/// One vertex-attribute binding: which buffer feeds attribute slot
/// `index`, and how the bytes are laid out.
#[derive(Debug, Clone, Copy, PartialEq, Eq, Structural)]
pub struct VertexAttrib {
    pub index: u32,
    pub size: u32,
    pub type_code: u32,
    pub normalized: bool,
    pub integer: bool,
    pub stride: usize,
    pub pointer: usize,
    pub buffer: u32,
}

/// Builds a vertex-array layout: attribute slots are handed out in
/// increasing order, each bound to the most recently bound buffer. The
/// frontend replays the finished layout into the GPU.
#[derive(Debug)]
pub struct VaoHelper {
    attribs: Vec<VertexAttrib>,
    bound: u32,
}

impl VaoHelper {
    /// The layout built so far, one entry per attribute slot, in slot
    /// order.
    pub closed spec fn layout(&self) -> Seq<VertexAttrib> {
        self.attribs@
    }

    /// The buffer subsequent attributes read from.
    pub closed spec fn bound_buffer(&self) -> u32 {
        self.bound
    }

    /// Slots are handed out consecutively from zero.
    pub open spec fn wf(&self) -> bool {
        forall|i: int| 0 <= i < self.layout().len() ==> (#[trigger] self.layout()[i]).index == i
    }

    pub fn new() -> (r: Self)
        ensures
            r.wf(),
            r.layout() == Seq::<VertexAttrib>::empty(),
            r.bound_buffer() == 0,
    {
        let r = VaoHelper { attribs: Vec::new(), bound: 0 };
        proof {
            assert(r.layout() =~= Seq::<VertexAttrib>::empty());
        }
        r
    }

    /// Binds the buffer that subsequent attributes read from.
    pub fn bind_buffer(self, buf: u32) -> (r: Self)
        ensures
            r.layout() == self.layout(),
            r.bound_buffer() == buf,
            self.wf() ==> r.wf(),
    {
        VaoHelper { attribs: self.attribs, bound: buf }
    }

    /// Claims the next attribute slot for a floating-point attribute of
    /// the bound buffer.
    pub fn push_attrib(
        self,
        size: u32,
        type_code: u32,
        normalized: bool,
        stride: usize,
        pointer: usize,
    ) -> (r: Self)
        requires
            self.layout().len() < u32::MAX,
        ensures
            r.layout() == self.layout().push(
                VertexAttrib {
                    index: self.layout().len() as u32,
                    size,
                    type_code,
                    normalized,
                    integer: false,
                    stride,
                    pointer,
                    buffer: self.bound_buffer(),
                },
            ),
            r.bound_buffer() == self.bound_buffer(),
            self.wf() ==> r.wf(),
    {
        let mut attribs = self.attribs;
        let index = attribs.len() as u32;
        attribs.push(
            VertexAttrib {
                index,
                size,
                type_code,
                normalized,
                integer: false,
                stride,
                pointer,
                buffer: self.bound,
            },
        );
        VaoHelper { attribs, bound: self.bound }
    }

    /// Claims the next attribute slot for an integer attribute of the
    /// bound buffer.
    pub fn push_int_attrib(self, size: u32, type_code: u32, stride: usize, pointer: usize) -> (r:
        Self)
        requires
            self.layout().len() < u32::MAX,
        ensures
            r.layout() == self.layout().push(
                VertexAttrib {
                    index: self.layout().len() as u32,
                    size,
                    type_code,
                    normalized: false,
                    integer: true,
                    stride,
                    pointer,
                    buffer: self.bound_buffer(),
                },
            ),
            r.bound_buffer() == self.bound_buffer(),
            self.wf() ==> r.wf(),
    {
        let mut attribs = self.attribs;
        let index = attribs.len() as u32;
        attribs.push(
            VertexAttrib {
                index,
                size,
                type_code,
                normalized: false,
                integer: true,
                stride,
                pointer,
                buffer: self.bound,
            },
        );
        VaoHelper { attribs, bound: self.bound }
    }

    /// The finished layout, ready to replay into the GPU.
    pub fn build(self) -> (r: Vec<VertexAttrib>)
        ensures
            r@ == self.layout(),
    {
        self.attribs
    }
}

} // verus!
