use vstd::prelude::*;

use crate::command::{
    instances_of, is_stable_z_sort, is_z_order, lemma_stable_z_sort_is_sorted,
    lemma_stable_z_sort_of_sorted, make_instance, sort_by_z, DrawCommand, InstanceData, Material,
    MaterialType,
};
use crate::mesh::{quad_index_list, quad_indices};

verus! {

/// The bind group a draw call binds: the placeholder reserved for color
/// commands, or a texture of the registry by its handle.
#[derive(Clone, Copy, Debug, PartialEq, Eq, Structural)]
pub enum BindGroup {
    Placeholder,
    Texture(usize),
}

/// One indexed, instanced draw of the render pass: the whole index range
/// `0..index_count` of mesh `mesh_id`, with bind group `bind_group`, over the
/// instances `instance_start..instance_end`.
#[derive(Clone, Copy, Debug, PartialEq, Eq, Structural)]
pub struct DrawCall {
    pub mesh_id: usize,
    pub index_count: u32,
    pub bind_group: BindGroup,
    pub instance_start: usize,
    pub instance_end: usize,
}

/// The bind group a command draws with: its texture, or for a color the
/// reserved placeholder.
pub open spec fn bind_group_of<M, C>(cmd: DrawCommand<M, C>) -> BindGroup {
    match cmd.material.kind {
        MaterialType::Texture(h) => BindGroup::Texture(h),
        MaterialType::Color(_) => BindGroup::Placeholder,
    }
}

/// The draw call that issues command `cmd` as instance `i` of the buffer.
pub open spec fn draw_call_of<M, C>(cmd: DrawCommand<M, C>, i: int, meshes: Seq<u32>) -> DrawCall {
    DrawCall {
        mesh_id: cmd.mesh_id,
        index_count: meshes[cmd.mesh_id as int],
        bind_group: bind_group_of(cmd),
        instance_start: i as usize,
        instance_end: (i + 1) as usize,
    }
}

/// Every texture a command names is a slot of a registry of `n` slots.
pub open spec fn textures_valid<M, C>(cmds: Seq<DrawCommand<M, C>>, n: nat) -> bool {
    forall|i: int|
        0 <= i < cmds.len() ==> (#[trigger] cmds[i].material.kind matches MaterialType::Texture(h)
            ==> h < n)
}

/// The renderer's frame state: the geometry table (index count of each mesh),
/// the texture registry (one bind group `B` per handle, never removed), the
/// draw commands of the current frame, and the instance records last uploaded.
/// `M` and `C` are the matrix and color types, carried through unchanged;
/// `texture_color` is the color written into texture instances, and
/// `placeholder` the bind group reserved for color commands, which is no
/// texture of the registry.
pub struct Renderer<M, C, B> {
    draw_commands: Vec<DrawCommand<M, C>>,
    instances: Option<Vec<InstanceData<M, C>>>,
    meshes: Vec<u32>,
    textures: Vec<B>,
    placeholder: B,
    texture_color: C,
}

impl<M: Copy, C: Copy, B> Renderer<M, C, B> {
    pub closed spec fn commands(&self) -> Seq<DrawCommand<M, C>> {
        self.draw_commands@
    }

    pub closed spec fn uploaded(&self) -> Option<Seq<InstanceData<M, C>>> {
        match self.instances {
            Some(v) => Some(v@),
            None => None,
        }
    }

    pub closed spec fn mesh_index_counts(&self) -> Seq<u32> {
        self.meshes@
    }

    pub closed spec fn texture_slots(&self) -> Seq<B> {
        self.textures@
    }

    pub closed spec fn placeholder_group(&self) -> B {
        self.placeholder
    }

    pub closed spec fn spec_texture_color(&self) -> C {
        self.texture_color
    }

    pub open spec fn wf(&self) -> bool {
        textures_valid(self.commands(), self.texture_slots().len())
    }

    /// Every command names a mesh of the geometry table.
    pub open spec fn pass_ready(&self) -> bool {
        forall|i: int|
            0 <= i < self.commands().len() ==> (#[trigger] self.commands()[i]).mesh_id
                < self.mesh_index_counts().len()
    }

    /// The draw calls of the render pass: none before an upload of a non-empty
    /// frame, else one per command in its order, each drawing its own instance.
    pub open spec fn pass_calls(&self) -> Seq<DrawCall> {
        if self.uploaded() is None {
            Seq::empty()
        } else {
            Seq::new(
                self.commands().len(),
                |i: int| draw_call_of(self.commands()[i], i, self.mesh_index_counts()),
            )
        }
    }

    /// Everything but the draw commands and the uploaded instances is as in `self`.
    pub open spec fn same_resources(&self, next: Self) -> bool {
        &&& next.mesh_index_counts() == self.mesh_index_counts()
        &&& next.texture_slots() == self.texture_slots()
        &&& next.placeholder_group() == self.placeholder_group()
        &&& next.spec_texture_color() == self.spec_texture_color()
    }

    /// `next` is `self` after `load_texture(bind_group)` returned `handle`.
    pub open spec fn load_step(&self, bind_group: B, next: Self, handle: usize) -> bool {
        &&& handle == self.texture_slots().len()
        &&& next.texture_slots() == self.texture_slots().push(bind_group)
        &&& next.commands() == self.commands()
        &&& next.uploaded() == self.uploaded()
        &&& next.mesh_index_counts() == self.mesh_index_counts()
        &&& next.placeholder_group() == self.placeholder_group()
        &&& next.spec_texture_color() == self.spec_texture_color()
    }

    /// `next` is `self` with `cmd` appended to the frame's commands.
    pub open spec fn draw_step(&self, cmd: DrawCommand<M, C>, next: Self) -> bool {
        &&& next.commands() == self.commands().push(cmd)
        &&& next.uploaded() == self.uploaded()
        &&& self.same_resources(next)
    }

    /// `next` is `self` after `upload_instances`: an empty frame clears the
    /// instances; otherwise the commands are stably sorted by z-index and the
    /// instances are those of the sorted commands, in that order.
    pub open spec fn upload_step(&self, next: Self) -> bool {
        &&& self.same_resources(next)
        &&& if self.commands().len() == 0 {
            &&& next.commands() == self.commands()
            &&& next.uploaded() is None
        } else {
            &&& is_stable_z_sort(self.commands(), next.commands())
            &&& next.uploaded() == Some(instances_of(next.commands(), self.spec_texture_color()))
        }
    }

    /// A renderer whose geometry table holds the quad, with no textures and no
    /// commands; color commands will draw with `placeholder`.
    pub fn new(texture_color: C, placeholder: B) -> (r: Self)
        ensures
            r.wf(),
            r.commands().len() == 0,
            r.uploaded() is None,
            r.mesh_index_counts() == seq![quad_index_list().len() as u32],
            r.texture_slots().len() == 0,
            r.placeholder_group() == placeholder,
            r.spec_texture_color() == texture_color,
    {
        let quad = quad_indices();
        let mut meshes: Vec<u32> = Vec::new();
        meshes.push(quad.len() as u32);
        Renderer {
            draw_commands: Vec::new(),
            instances: None,
            meshes,
            textures: Vec::new(),
            placeholder,
            texture_color,
        }
    }

    /// Adds a texture's bind group to the registry; its handle is the slot it
    /// takes, which stays valid for the renderer's lifetime.
    pub fn load_texture(&mut self, bind_group: B) -> (handle: usize)
        requires
            old(self).wf(),
        ensures
            final(self).wf(),
            old(self).load_step(bind_group, *final(self), handle),
    {
        let handle = self.textures.len();
        self.textures.push(bind_group);
        handle
    }

    /// Adds a glyph's texture, if the glyph could be rasterized; a glyph with
    /// no outline leaves the registry as it is and gives no handle.
    pub fn load_char(&mut self, glyph: Option<B>) -> (r: Option<usize>)
        requires
            old(self).wf(),
        ensures
            final(self).wf(),
            match glyph {
                Some(b) => r is Some && old(self).load_step(b, *final(self), r->0),
                None => r is None && *final(self) == *old(self),
            },
    {
        match glyph {
            Some(b) => Some(self.load_texture(b)),
            None => None,
        }
    }

    /// Queues a quad of mesh `mesh_id` painted in `color`.
    pub fn draw(&mut self, mesh_id: usize, transform: M, color: C, z_index: u32)
        requires
            old(self).wf(),
        ensures
            final(self).wf(),
            old(self).draw_step(
                (DrawCommand { mesh_id, transform, z_index, material: Material { kind: MaterialType::Color(color) } }),
                *final(self),
            ),
    {
        let cmd = DrawCommand { mesh_id, transform, z_index, material: Material::color(color) };
        self.draw_commands.push(cmd);
        proof {
            assert(self.draw_commands@[self.draw_commands@.len() - 1] == cmd);
        }
    }

    /// Queues a quad of mesh `mesh_id` painted with the texture `texture_id`.
    pub fn draw_texture(&mut self, mesh_id: usize, transform: M, texture_id: usize, z_index: u32)
        requires
            old(self).wf(),
            texture_id < old(self).texture_slots().len(),
        ensures
            final(self).wf(),
            old(self).draw_step(
                (DrawCommand { mesh_id, transform, z_index, material: Material { kind: MaterialType::Texture(texture_id) } }),
                *final(self),
            ),
    {
        let cmd = DrawCommand {
            mesh_id,
            transform,
            z_index,
            material: Material::texture(texture_id),
        };
        self.draw_commands.push(cmd);
        proof {
            assert(self.draw_commands@[self.draw_commands@.len() - 1] == cmd);
        }
    }

    /// Orders the frame's commands by z-index and rebuilds the instance
    /// records from them, or clears them when nothing was drawn.
    pub fn upload_instances(&mut self)
        requires
            old(self).wf(),
        ensures
            final(self).wf(),
            old(self).upload_step(*final(self)),
    {
        if self.draw_commands.is_empty() {
            self.instances = None;
            return ;
        }
        let sorted = sort_by_z(&self.draw_commands);
        let mut instances: Vec<InstanceData<M, C>> = Vec::new();
        let mut i: usize = 0;
        while i < sorted.len()
            invariant
                i <= sorted@.len(),
                instances@ == instances_of(sorted@.take(i as int), self.texture_color),
            decreases sorted@.len() - i,
        {
            instances.push(make_instance(&sorted[i], self.texture_color));
            proof {
                assert(sorted@.take(i + 1) =~= sorted@.take(i as int).push(sorted@[i as int]));
                assert(instances@ =~= instances_of(sorted@.take(i + 1), self.texture_color));
            }
            i = i + 1;
        }
        proof {
            assert(sorted@.take(sorted@.len() as int) =~= sorted@);
            let p = choose|p: Seq<int>|
                is_z_order(self.draw_commands@, p) && sorted@.len() == p.len()
                    && forall|k: int| 0 <= k < sorted@.len() ==> #[trigger] sorted@[k] == self.draw_commands@[p[k]];
            assert forall|k: int| 0 <= k < sorted@.len() implies (#[trigger] sorted@[k].material.kind matches MaterialType::Texture(h)
                ==> h < self.textures@.len()) by {
                assert(sorted@[k] == self.draw_commands@[p[k]]);
            }
        }
        self.draw_commands = sorted;
        self.instances = Some(instances);
    }
    /// Whether `begin_pass` may run: every command names a mesh of the table.
    pub fn is_pass_ready(&self) -> (r: bool)
        ensures
            r == self.pass_ready(),
    {
        let mut i: usize = 0;
        while i < self.draw_commands.len()
            invariant
                i <= self.draw_commands@.len(),
                forall|k: int|
                    0 <= k < i ==> (#[trigger] self.draw_commands@[k]).mesh_id < self.meshes@.len(),
            decreases self.draw_commands@.len() - i,
        {
            if self.draw_commands[i].mesh_id >= self.meshes.len() {
                return false;
            }
            i = i + 1;
        }
        true
    }

    /// Plans the render pass: after an upload, one draw call per command in
    /// its (sorted) order, each over the whole index range of its mesh, with
    /// its bind group, and over the single instance at its own position.
    pub fn begin_pass(&self) -> (calls: Vec<DrawCall>)
        requires
            self.wf(),
            self.pass_ready(),
        ensures
            calls@ == self.pass_calls(),
    {
        let mut calls: Vec<DrawCall> = Vec::new();
        if self.instances.is_none() {
            proof {
                assert(calls@ =~= self.pass_calls());
            }
            return calls;
        }
        let mut i: usize = 0;
        while i < self.draw_commands.len()
            invariant
                self.wf(),
                self.pass_ready(),
                self.instances is Some,
                i <= self.draw_commands@.len(),
                calls@.len() == i,
                forall|k: int|
                    0 <= k < i ==> #[trigger] calls@[k] == draw_call_of(
                        self.draw_commands@[k],
                        k,
                        self.meshes@,
                    ),
            decreases self.draw_commands@.len() - i,
        {
            let cmd = &self.draw_commands[i];
            assert(self.commands()[i as int] == *cmd);
            let bind_group = match cmd.material.kind {
                MaterialType::Texture(h) => BindGroup::Texture(h),
                MaterialType::Color(_) => BindGroup::Placeholder,
            };
            calls.push(
                DrawCall {
                    mesh_id: cmd.mesh_id,
                    index_count: self.meshes[cmd.mesh_id],
                    bind_group,
                    instance_start: i,
                    instance_end: i + 1,
                },
            );
            i = i + 1;
        }
        proof {
            assert(calls@ =~= self.pass_calls());
        }
        calls
    }

    /// Ends the frame: the commands never outlive it.
    pub fn clear_draw_commands(&mut self)
        requires
            old(self).wf(),
        ensures
            final(self).wf(),
            final(self).commands().len() == 0,
            final(self).uploaded() == old(self).uploaded(),
            old(self).same_resources(*final(self)),
    {
        self.draw_commands.clear();
    }
    /// The commands of the current frame, in their present order.
    pub fn draw_commands(&self) -> (r: &Vec<DrawCommand<M, C>>)
        ensures
            r@ == self.commands(),
    {
        &self.draw_commands
    }

    /// The instance records of the last upload, if it had any.
    pub fn instances(&self) -> (r: Option<&Vec<InstanceData<M, C>>>)
        ensures
            match r {
                Some(v) => self.uploaded() == Some(v@),
                None => self.uploaded() is None,
            },
    {
        match &self.instances {
            Some(v) => Some(v),
            None => None,
        }
    }

    pub fn texture_count(&self) -> (r: usize)
        ensures
            r == self.texture_slots().len(),
    {
        self.textures.len()
    }

    /// The bind group of a texture handle.
    pub fn texture(&self, handle: usize) -> (r: &B)
        requires
            handle < self.texture_slots().len(),
        ensures
            *r == self.texture_slots()[handle as int],
    {
        &self.textures[handle]
    }

    /// The resource a draw call binds: the placeholder, or a texture's bind
    /// group.
    pub fn bind_group(&self, group: BindGroup) -> (r: &B)
        requires
            group matches BindGroup::Texture(h) ==> h < self.texture_slots().len(),
        ensures
            *r == match group {
                BindGroup::Placeholder => self.placeholder_group(),
                BindGroup::Texture(h) => self.texture_slots()[h as int],
            },
    {
        match group {
            BindGroup::Placeholder => &self.placeholder,
            BindGroup::Texture(h) => &self.textures[h],
        }
    }

    pub fn mesh_count(&self) -> (r: usize)
        ensures
            r == self.mesh_index_counts().len(),
    {
        self.meshes.len()
    }
}

/// Uploading twice with no draw in between gives the same instance records
/// and the same command order as the first upload.
pub proof fn lemma_upload_idempotent<M: Copy, C: Copy, B>(
    r0: Renderer<M, C, B>,
    r1: Renderer<M, C, B>,
    r2: Renderer<M, C, B>,
)
    requires
        r0.upload_step(r1),
        r1.upload_step(r2),
    ensures
        r2.uploaded() == r1.uploaded(),
        r2.commands() == r1.commands(),
{
    if r0.commands().len() != 0 {
        lemma_stable_z_sort_is_sorted(r0.commands(), r1.commands());
        lemma_stable_z_sort_of_sorted(r1.commands(), r2.commands());
    }
}

/// A frame with no draw uploads no instances, and its pass issues no draw call.
pub proof fn lemma_empty_frame<M: Copy, C: Copy, B>(r0: Renderer<M, C, B>, r1: Renderer<M, C, B>)
    requires
        r0.commands().len() == 0,
        r0.upload_step(r1),
    ensures
        r1.uploaded() is None,
        r1.pass_calls().len() == 0,
{
}

/// Uploading keeps every command naming a mesh of the table, so a pass that
/// could run before the upload still can.
pub proof fn lemma_upload_keeps_pass_ready<M: Copy, C: Copy, B>(
    r0: Renderer<M, C, B>,
    r1: Renderer<M, C, B>,
)
    requires
        r0.pass_ready(),
        r0.upload_step(r1),
    ensures
        r1.pass_ready(),
{
    if r0.commands().len() != 0 {
        let s = r0.commands();
        let p = choose|p: Seq<int>|
            is_z_order(s, p) && r1.commands().len() == p.len() && forall|k: int|
                0 <= k < r1.commands().len() ==> #[trigger] r1.commands()[k] == s[p[k]];
        assert forall|k: int| 0 <= k < r1.commands().len() implies (#[trigger] r1.commands()[k]).mesh_id
            < r1.mesh_index_counts().len() by {
            assert(r1.commands()[k] == s[p[k]]);
        }
    }
}

/// A handle that `load_texture` returns may be drawn with at once, and after
/// the upload the pass can run and issues that command as its own instance,
/// over its mesh, with the loaded bind group.
pub proof fn lemma_loaded_texture_is_bound<M: Copy, C: Copy, B>(
    r0: Renderer<M, C, B>,
    bind_group: B,
    r1: Renderer<M, C, B>,
    handle: usize,
    cmd: DrawCommand<M, C>,
    r2: Renderer<M, C, B>,
    r3: Renderer<M, C, B>,
)
    requires
        r0.load_step(bind_group, r1, handle),
        cmd.material.kind == MaterialType::<C>::Texture(handle),
        r1.draw_step(cmd, r2),
        r2.upload_step(r3),
        r1.pass_ready(),
        cmd.mesh_id < r1.mesh_index_counts().len(),
    ensures
        handle < r1.texture_slots().len(),
        r3.texture_slots()[handle as int] == bind_group,
        r3.pass_ready(),
        exists|k: int|
            0 <= k < r3.pass_calls().len() && r3.commands()[k] == cmd && #[trigger] r3.pass_calls()[k]
                == (DrawCall {
                mesh_id: cmd.mesh_id,
                index_count: r3.mesh_index_counts()[cmd.mesh_id as int],
                bind_group: BindGroup::Texture(handle),
                instance_start: k as usize,
                instance_end: (k + 1) as usize,
            }),
{
    let s = r2.commands();
    let last = s.len() - 1;
    assert(s[last] == cmd);
    assert forall|i: int| 0 <= i < s.len() implies (#[trigger] s[i]).mesh_id
        < r2.mesh_index_counts().len() by {
        if i < last {
            assert(s[i] == r1.commands()[i]);
        }
    }
    lemma_upload_keeps_pass_ready(r2, r3);
    let p = choose|p: Seq<int>|
        is_z_order(s, p) && r3.commands().len() == p.len() && forall|k: int|
            0 <= k < r3.commands().len() ==> #[trigger] r3.commands()[k] == s[p[k]];
    assert(p.contains(last));
    let k = choose|k: int| 0 <= k < p.len() && p[k] == last;
    assert(r3.commands()[k] == cmd);
    assert(r3.pass_calls()[k] == draw_call_of(cmd, k, r3.mesh_index_counts()));
}

} // verus!
