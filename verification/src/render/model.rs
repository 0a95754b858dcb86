//! Models on the device: where each lies in the vertex and the index buffer,
//! and the draw calls of a frame.

use vstd::prelude::*;

verus! {

/// A mesh, as far as it matters to where it lies.
pub struct MeshInfo {
    pub mesh_id: u64,
    /// Vertices.
    pub vertex_count: u32,
    /// Indices into them.
    pub index_count: u32,
    pub vertex_bytes: u64,
    pub index_bytes: u64,
    /// The file of the mesh's texture.
    pub tex_file: Option<String>,
}

/// A mesh that is drawn, and how many times.
pub struct DrawTask {
    pub mesh: MeshInfo,
    pub instances: u32,
}

/// A model that is loaded, and where it begins.
#[derive(Debug, Clone, Copy, PartialEq, Eq, Structural)]
pub struct LoadedModelHandles {
    pub mesh_id: u64,
    pub textured: bool,
    pub vertex_offset: i32,
    pub index_offset: u32,
}

/// A model that is to be loaded: where its bytes go, and its texture.
#[derive(Debug, Clone, Copy, PartialEq, Eq, Structural)]
pub struct ModelLoad {
    /// The draw task that it is loaded for, by its index.
    pub task: usize,
    pub vertex_byte_start: u64,
    pub index_byte_start: u64,
    pub textured: bool,
}

/// One draw call.
#[derive(Debug, Clone, Copy, PartialEq, Eq, Structural)]
pub struct DrawCall {
    pub index_count: u32,
    pub instance_count: u32,
    pub first_index: u32,
    pub vertex_offset: i32,
    pub first_instance: u32,
    pub textured: bool,
}

/// What is loaded, and where the free room begins, as plain values.
pub struct RoomModel {
    pub loaded: Seq<LoadedModelHandles>,
    pub vertex_byte: int,
    pub index_byte: int,
    pub vertex: int,
    pub index: int,
}

impl RoomModel {
    /// Whether a mesh is loaded.
    pub open spec fn has(self, mesh_id: u64) -> bool {
        exists|i: int| 0 <= i < self.loaded.len() && (#[trigger] self.loaded[i]).mesh_id == mesh_id
    }

    /// The room after a mesh was loaded behind everything else.
    pub open spec fn loading(self, mesh: MeshInfo) -> RoomModel {
        RoomModel {
            loaded: self.loaded.push(
                LoadedModelHandles {
                    mesh_id: mesh.mesh_id,
                    textured: mesh.tex_file is Some,
                    vertex_offset: self.vertex as i32,
                    index_offset: self.index as u32,
                },
            ),
            vertex_byte: self.vertex_byte + mesh.vertex_bytes,
            index_byte: self.index_byte + mesh.index_bytes,
            vertex: self.vertex + mesh.vertex_count,
            index: self.index + mesh.index_count,
        }
    }
}

/// The room after all meshes of some tasks are loaded.
pub open spec fn room_after(room: RoomModel, draws: Seq<DrawTask>) -> RoomModel
    decreases draws.len(),
{
    if draws.len() == 0 {
        room
    } else {
        let before = room_after(room, draws.drop_last());
        if before.has(draws.last().mesh.mesh_id) {
            before
        } else {
            before.loading(draws.last().mesh)
        }
    }
}

/// What is loaded for some tasks, in order: each mesh once, and none that is
/// there already.
pub open spec fn loads_for(room: RoomModel, draws: Seq<DrawTask>) -> Seq<ModelLoad>
    decreases draws.len(),
{
    if draws.len() == 0 {
        Seq::empty()
    } else {
        let init = loads_for(room, draws.drop_last());
        let before = room_after(room, draws.drop_last());
        if before.has(draws.last().mesh.mesh_id) {
            init
        } else {
            init.push(
                ModelLoad {
                    task: (draws.len() - 1) as usize,
                    vertex_byte_start: before.vertex_byte as u64,
                    index_byte_start: before.index_byte as u64,
                    textured: draws.last().mesh.tex_file is Some,
                },
            )
        }
    }
}

/// Whether the offsets of the room can still be counted.
pub open spec fn room_fits(room: RoomModel) -> bool {
    &&& 0 <= room.vertex_byte <= u64::MAX
    &&& 0 <= room.index_byte <= u64::MAX
    &&& 0 <= room.vertex <= i32::MAX
    &&& 0 <= room.index <= u32::MAX
}

/// Loading only adds: what was loaded stays where it is, and the free room
/// only shrinks.
pub proof fn loaded_models_stay(room: RoomModel, draws: Seq<DrawTask>)
    ensures
        room.loaded.len() <= room_after(room, draws).loaded.len(),
        room_after(room, draws).loaded.subrange(0, room.loaded.len() as int) == room.loaded,
        room.vertex <= room_after(room, draws).vertex,
        room.index <= room_after(room, draws).index,
        room.vertex_byte <= room_after(room, draws).vertex_byte,
        room.index_byte <= room_after(room, draws).index_byte,
    decreases draws.len(),
{
    if draws.len() > 0 {
        loaded_models_stay(room, draws.drop_last());
        let before = room_after(room, draws.drop_last());
        let after = room_after(room, draws);
        assert(after.loaded.subrange(0, room.loaded.len() as int) =~= before.loaded.subrange(
            0,
            room.loaded.len() as int,
        ));
    }
    assert(room.loaded.subrange(0, room.loaded.len() as int) =~= room.loaded);
}

/// Every task's mesh is loaded once its frame is drawn.
pub proof fn every_mesh_is_loaded(room: RoomModel, draws: Seq<DrawTask>, i: int)
    requires
        0 <= i < draws.len(),
    ensures
        room_after(room, draws).has(draws[i].mesh.mesh_id),
    decreases draws.len(),
{
    let init = draws.drop_last();
    let before = room_after(room, init);
    let after = room_after(room, draws);
    if i == draws.len() - 1 {
        if !before.has(draws[i].mesh.mesh_id) {
            assert(after.loaded[after.loaded.len() - 1].mesh_id == draws[i].mesh.mesh_id);
        }
    } else {
        every_mesh_is_loaded(room, init, i);
        let k = choose|k: int|
            0 <= k < before.loaded.len() && (#[trigger] before.loaded[k]).mesh_id
                == init[i].mesh.mesh_id;
        assert(after.loaded[k] == before.loaded[k]);
    }
}

/// Models do not overlap: what is loaded later lies behind the room that a
/// mesh took.
pub proof fn later_models_lie_behind(room: RoomModel, mesh: MeshInfo, draws: Seq<DrawTask>, i: int)
    requires
        room_fits(room),
        room_fits(room_after(room.loading(mesh), draws)),
        room.loaded.len() < i < room_after(room.loading(mesh), draws).loaded.len(),
    ensures
        room_after(room.loading(mesh), draws).loaded[i].vertex_offset >= room.vertex
            + mesh.vertex_count,
        room_after(room.loading(mesh), draws).loaded[i].index_offset >= room.index
            + mesh.index_count,
    decreases draws.len(),
{
    let start = room.loading(mesh);
    if draws.len() > 0 {
        let init = draws.drop_last();
        let before = room_after(start, init);
        loaded_models_stay(start, init);
        if i < before.loaded.len() {
            assert(room_fits(before));
            later_models_lie_behind(room, mesh, init, i);
        }
    }
}

/// The models on the device.
pub struct ModelRoom {
    pub loaded_models: Vec<LoadedModelHandles>,
    pub vertex_free_byte_start: u64,
    pub index_free_byte_start: u64,
    pub vertex_free_start: i32,
    pub index_free_start: u32,
}

impl View for ModelRoom {
    type V = RoomModel;

    open spec fn view(&self) -> RoomModel {
        RoomModel {
            loaded: self.loaded_models@,
            vertex_byte: self.vertex_free_byte_start as int,
            index_byte: self.index_free_byte_start as int,
            vertex: self.vertex_free_start as int,
            index: self.index_free_start as int,
        }
    }
}

/// Whether the index of a loaded mesh is the first with its id.
pub open spec fn is_loaded_at(loaded: Seq<LoadedModelHandles>, mesh_id: u64, i: int) -> bool {
    &&& 0 <= i < loaded.len()
    &&& loaded[i].mesh_id == mesh_id
    &&& forall|j: int| 0 <= j < i ==> (#[trigger] loaded[j]).mesh_id != mesh_id
}

impl ModelRoom {
    /// A device without models.
    pub fn new() -> (r: Self)
        ensures
            r@ == (RoomModel {
                loaded: Seq::empty(),
                vertex_byte: 0,
                index_byte: 0,
                vertex: 0,
                index: 0,
            }),
            room_fits(r@),
    {
        ModelRoom {
            loaded_models: Vec::new(),
            vertex_free_byte_start: 0,
            index_free_byte_start: 0,
            vertex_free_start: 0,
            index_free_start: 0,
        }
    }

    /// Forgets all models. The room that they took stays taken.
    pub fn invalidate_model_memory(&mut self)
        ensures
            final(self)@ == (RoomModel { loaded: Seq::empty(), ..old(self)@ }),
    {
        self.loaded_models.clear();
    }

    /// Where a loaded mesh is listed.
    pub fn find(&self, mesh_id: u64) -> (at: Option<usize>)
        ensures
            at is Some <==> self@.has(mesh_id),
            at matches Some(i) ==> is_loaded_at(self@.loaded, mesh_id, i as int),
    {
        let mut i: usize = 0;
        while i < self.loaded_models.len()
            invariant
                i <= self.loaded_models@.len(),
                forall|j: int|
                    0 <= j < i ==> (#[trigger] self.loaded_models@[j]).mesh_id != mesh_id,
            decreases self.loaded_models@.len() - i,
        {
            if self.loaded_models[i].mesh_id == mesh_id {
                assert(self@.loaded[i as int].mesh_id == mesh_id);
                return Some(i);
            }
            i += 1;
        }
        None
    }

    /// Whether the offsets can still be counted once a frame's meshes are
    /// loaded.
    pub fn has_room(&self, draws: &Vec<DrawTask>) -> (ok: bool)
        requires
            room_fits(self@),
        ensures
            ok == room_fits(room_after(self@, draws@)),
    {
        let ghost room = self@;
        let mut trial = ModelRoom {
            loaded_models: Vec::new(),
            vertex_free_byte_start: self.vertex_free_byte_start,
            index_free_byte_start: self.index_free_byte_start,
            vertex_free_start: self.vertex_free_start,
            index_free_start: self.index_free_start,
        };
        let mut k: usize = 0;
        assert(trial@.loaded =~= room.loaded.subrange(0, 0));
        while k < self.loaded_models.len()
            invariant
                k <= self.loaded_models@.len(),
                trial@ == (RoomModel { loaded: room.loaded.subrange(0, k as int), ..room }),
                room == self@,
            decreases self.loaded_models@.len() - k,
        {
            trial.loaded_models.push(self.loaded_models[k]);
            k += 1;
            assert(trial@.loaded =~= room.loaded.subrange(0, k as int));
        }
        assert(trial@.loaded =~= room.loaded);
        let mut i: usize = 0;
        assert(draws@.subrange(0, 0) =~= Seq::<DrawTask>::empty());
        while i < draws.len()
            invariant
                i <= draws@.len(),
                room == self@,
                room_fits(room),
                trial@ == room_after(room, draws@.subrange(0, i as int)),
                room_fits(trial@),
            decreases draws@.len() - i,
        {
            let ghost next = draws@.subrange(0, i + 1);
            assert(next.drop_last() =~= draws@.subrange(0, i as int));
            assert(next.last() == draws@[i as int]);
            let mesh = &draws[i].mesh;
            if trial.find(mesh.mesh_id).is_none() {
                assert(room_after(room, next) == trial@.loading(*mesh));
                if mesh.vertex_bytes > u64::MAX - trial.vertex_free_byte_start || mesh.index_bytes
                    > u64::MAX - trial.index_free_byte_start || mesh.index_count > u32::MAX
                    - trial.index_free_start || mesh.vertex_count as i64 > i32::MAX as i64
                    - trial.vertex_free_start as i64 {
                    proof {
                        if room_fits(room_after(room, draws@)) {
                            room_grows(room, draws@, i + 1);
                        }
                    }
                    return false;
                }
                trial.loaded_models.push(
                    LoadedModelHandles {
                        mesh_id: mesh.mesh_id,
                        textured: mesh.tex_file.is_some(),
                        vertex_offset: trial.vertex_free_start,
                        index_offset: trial.index_free_start,
                    },
                );
                trial.vertex_free_start = trial.vertex_free_start + mesh.vertex_count as i32;
                trial.index_free_start = trial.index_free_start + mesh.index_count;
                trial.vertex_free_byte_start = trial.vertex_free_byte_start + mesh.vertex_bytes;
                trial.index_free_byte_start = trial.index_free_byte_start + mesh.index_bytes;
            }
            i += 1;
        }
        assert(draws@.subrange(0, draws@.len() as int) =~= draws@);
        true
    }

    /// Makes room for every mesh of a frame that is not loaded yet, and says
    /// where each goes.
    pub fn load(&mut self, draws: &Vec<DrawTask>) -> (loads: Vec<ModelLoad>)
        requires
            room_fits(old(self)@),
            room_fits(room_after(old(self)@, draws@)),
        ensures
            final(self)@ == room_after(old(self)@, draws@),
            loads@ == loads_for(old(self)@, draws@),
    {
        let ghost room = self@;
        let mut loads: Vec<ModelLoad> = Vec::new();
        let mut i: usize = 0;
        assert(draws@.subrange(0, 0) =~= Seq::<DrawTask>::empty());
        assert(draws@.subrange(0, draws@.len() as int) =~= draws@);
        while i < draws.len()
            invariant
                i <= draws@.len(),
                room_fits(room),
                room_fits(room_after(room, draws@)),
                self@ == room_after(room, draws@.subrange(0, i as int)),
                loads@ == loads_for(room, draws@.subrange(0, i as int)),
            decreases draws@.len() - i,
        {
            let ghost seen = draws@.subrange(0, i as int);
            let ghost next = draws@.subrange(0, i + 1);
            assert(next.drop_last() =~= seen);
            proof {
                room_grows(room, draws@, i as int);
                room_grows(room, draws@, i + 1);
                assert(next.last() == draws@[i as int]);
            }
            let mesh = &draws[i].mesh;
            if self.find(mesh.mesh_id).is_none() {
                assert(room_after(room, next) == self@.loading(*mesh));
                let textured = mesh.tex_file.is_some();
                loads.push(
                    ModelLoad {
                        task: i,
                        vertex_byte_start: self.vertex_free_byte_start,
                        index_byte_start: self.index_free_byte_start,
                        textured,
                    },
                );
                self.loaded_models.push(
                    LoadedModelHandles {
                        mesh_id: mesh.mesh_id,
                        textured,
                        vertex_offset: self.vertex_free_start,
                        index_offset: self.index_free_start,
                    },
                );
                self.vertex_free_start = self.vertex_free_start + mesh.vertex_count as i32;
                self.index_free_start = self.index_free_start + mesh.index_count;
                self.vertex_free_byte_start = self.vertex_free_byte_start + mesh.vertex_bytes;
                self.index_free_byte_start = self.index_free_byte_start + mesh.index_bytes;
            }
            i += 1;
        }
        loads
    }

    /// The draw calls of a frame, one per task. Each draws its instances
    /// behind those of the calls before it.
    pub fn draw_calls(&self, draws: &Vec<DrawTask>) -> (calls: Vec<DrawCall>)
        requires
            forall|i: int|
                0 <= i < draws@.len() ==> self@.has((#[trigger] draws@[i]).mesh.mesh_id),
            instances_before(draws@, draws@.len() as int) <= u32::MAX,
        ensures
            calls@.len() == draws@.len(),
            forall|i: int|
                0 <= i < calls@.len() ==> is_call_for(#[trigger] calls@[i], self@, draws@, i),
    {
        let mut calls: Vec<DrawCall> = Vec::new();
        let mut first_instance: u32 = 0;
        let mut i: usize = 0;
        while i < draws.len()
            invariant
                i <= draws@.len(),
                calls@.len() == i,
                first_instance == instances_before(draws@, i as int),
                instances_before(draws@, draws@.len() as int) <= u32::MAX,
                forall|j: int|
                    0 <= j < draws@.len() ==> self@.has((#[trigger] draws@[j]).mesh.mesh_id),
                forall|j: int| 0 <= j < i ==> is_call_for(#[trigger] calls@[j], self@, draws@, j),
            decreases draws@.len() - i,
        {
            proof {
                instances_add_up(draws@, i + 1, draws@.len() as int);
            }
            let draw = &draws[i];
            if let Some(at) = self.find(draw.mesh.mesh_id) {
                let handle = self.loaded_models[at];
                let call = DrawCall {
                    index_count: draw.mesh.index_count,
                    instance_count: draw.instances,
                    first_index: handle.index_offset,
                    vertex_offset: handle.vertex_offset,
                    first_instance,
                    textured: handle.textured,
                };
                assert(is_loaded_at(self@.loaded, draw.mesh.mesh_id, at as int));
                assert(is_call_for(call, self@, draws@, i as int));
                calls.push(call);
            }
            first_instance = first_instance + draw.instances;
            i += 1;
        }
        calls
    }
}

proof fn room_grows(room: RoomModel, draws: Seq<DrawTask>, k: int)
    requires
        0 <= k <= draws.len(),
        room_fits(room),
        room_fits(room_after(room, draws)),
    ensures
        room_fits(room_after(room, draws.subrange(0, k))),
    decreases draws.len() - k,
{
    if k == draws.len() {
        assert(draws.subrange(0, k) =~= draws);
    } else {
        room_grows(room, draws, k + 1);
        assert(draws.subrange(0, k + 1).drop_last() =~= draws.subrange(0, k));
        loaded_models_stay(room, draws.subrange(0, k));
    }
}

/// Instances of the tasks before one.
pub open spec fn instances_before(draws: Seq<DrawTask>, i: int) -> int
    decreases i,
{
    if i <= 0 {
        0
    } else {
        instances_before(draws, i - 1) + draws[i - 1].instances
    }
}

proof fn instances_add_up(draws: Seq<DrawTask>, i: int, j: int)
    requires
        0 <= i <= j <= draws.len(),
    ensures
        instances_before(draws, i) <= instances_before(draws, j),
    decreases j - i,
{
    if i < j {
        instances_add_up(draws, i, j - 1);
    }
}

/// Whether a call draws a task: its mesh from where it lies, its instances
/// behind those of the tasks before it.
pub open spec fn is_call_for(
    call: DrawCall,
    room: RoomModel,
    draws: Seq<DrawTask>,
    i: int,
) -> bool {
    &&& call.index_count == draws[i].mesh.index_count
    &&& call.instance_count == draws[i].instances
    &&& call.first_instance == instances_before(draws, i)
    &&& exists|k: int| #[trigger]
        is_loaded_at(room.loaded, draws[i].mesh.mesh_id, k) && call.first_index
            == room.loaded[k].index_offset && call.vertex_offset == room.loaded[k].vertex_offset
            && call.textured == room.loaded[k].textured
}

/// Whether a texture's file can be loaded: its name ends in `.png`.
pub fn is_loadable_texture(file: &str) -> (ok: bool)
    ensures
        ok == (file@.len() >= 4 && file@.subrange(file@.len() - 4, file@.len() as int) == seq![
            '.',
            'p',
            'n',
            'g',
        ]),
{
    let len: usize = file.unicode_len();
    if len < 4 {
        return false;
    }
    let ghost end = file@.subrange(file@.len() - 4, file@.len() as int);
    let ok = file.get_char(len - 4) == '.' && file.get_char(len - 3) == 'p' && file.get_char(
        len - 2,
    ) == 'n' && file.get_char(len - 1) == 'g';
    proof {
        if ok {
            assert(end =~= seq!['.', 'p', 'n', 'g']);
        } else {
            assert(end[0] == file@[len - 4]);
            assert(end[1] == file@[len - 3]);
            assert(end[2] == file@[len - 2]);
            assert(end[3] == file@[len - 1]);
        }
    }
    ok
}

/// One task more: where its mesh is loaded nothing changes. Else the mesh is
/// listed behind all others, begins where the free room began and takes as much
/// of it as it has vertices, indices and bytes, and it is loaded for that task.
pub proof fn one_more_task_loads_its_mesh(room: RoomModel, draws: Seq<DrawTask>, task: DrawTask)
    ensures
        room_after(room, Seq::<DrawTask>::empty()) == room,
        loads_for(room, Seq::<DrawTask>::empty()).len() == 0,
        ({
            let before = room_after(room, draws);
            let after = room_after(room, draws.push(task));
            let loads = loads_for(room, draws);
            let more = loads_for(room, draws.push(task));
            let there = exists|k: int|
                0 <= k < before.loaded.len() && (#[trigger] before.loaded[k]).mesh_id
                    == task.mesh.mesh_id;
            &&& there ==> after == before && more == loads
            &&& !there ==> {
                &&& after.loaded.len() == before.loaded.len() + 1
                &&& after.loaded.drop_last() == before.loaded
                &&& after.loaded.last().mesh_id == task.mesh.mesh_id
                &&& after.loaded.last().textured == (task.mesh.tex_file is Some)
                &&& after.loaded.last().vertex_offset == before.vertex as i32
                &&& after.loaded.last().index_offset == before.index as u32
                &&& after.vertex - before.vertex == task.mesh.vertex_count
                &&& after.index - before.index == task.mesh.index_count
                &&& after.vertex_byte - before.vertex_byte == task.mesh.vertex_bytes
                &&& after.index_byte - before.index_byte == task.mesh.index_bytes
                &&& more.len() == loads.len() + 1
                &&& more.drop_last() == loads
                &&& more.last().task == draws.len() as usize
                &&& more.last().vertex_byte_start == before.vertex_byte as u64
                &&& more.last().index_byte_start == before.index_byte as u64
                &&& more.last().textured == (task.mesh.tex_file is Some)
            }
        }),
{
    let all = draws.push(task);
    assert(all.drop_last() =~= draws);
    let before = room_after(room, draws);
    if !before.has(task.mesh.mesh_id) {
        assert(room_after(room, all).loaded.drop_last() =~= before.loaded);
        assert(loads_for(room, all).drop_last() =~= loads_for(room, draws));
    }
}

/// The tasks of two frames, one after the other, are loaded as if they were
/// one, and loading the same tasks again loads nothing.
pub proof fn frames_load_one_after_the_other(
    room: RoomModel,
    first: Seq<DrawTask>,
    second: Seq<DrawTask>,
)
    ensures
        room_after(room_after(room, first), second) == room_after(room, first + second),
        room_after(room_after(room, first), first) == room_after(room, first),
        loads_for(room_after(room, first), first).len() == 0,
{
    frames_add_up(room, first, second);
    assert forall|k: int| 0 <= k < first.len() implies room_after(room, first).has(
        (#[trigger] first[k]).mesh.mesh_id,
    ) by {
        every_mesh_is_loaded(room, first, k);
    }
    what_is_loaded_is_not_loaded_again(room_after(room, first), first);
}

proof fn frames_add_up(room: RoomModel, first: Seq<DrawTask>, second: Seq<DrawTask>)
    ensures
        room_after(room_after(room, first), second) == room_after(room, first + second),
    decreases second.len(),
{
    if second.len() == 0 {
        assert(first + second =~= first);
    } else {
        frames_add_up(room, first, second.drop_last());
        assert((first + second).drop_last() =~= first + second.drop_last());
    }
}

proof fn what_is_loaded_is_not_loaded_again(room: RoomModel, draws: Seq<DrawTask>)
    requires
        forall|k: int| 0 <= k < draws.len() ==> room.has((#[trigger] draws[k]).mesh.mesh_id),
    ensures
        room_after(room, draws) == room,
        loads_for(room, draws).len() == 0,
    decreases draws.len(),
{
    if draws.len() > 0 {
        let init = draws.drop_last();
        assert forall|k: int| 0 <= k < init.len() implies room.has(
            (#[trigger] init[k]).mesh.mesh_id,
        ) by {
            assert(init[k] == draws[k]);
        }
        what_is_loaded_is_not_loaded_again(room, init);
        assert(draws[draws.len() - 1] == draws.last());
    }
}

/// No mesh is loaded twice: where every loaded mesh has its own id, this stays
/// so.
pub proof fn no_mesh_is_loaded_twice(room: RoomModel, draws: Seq<DrawTask>)
    requires
        forall|i: int, j: int|
            0 <= i < j < room.loaded.len() ==> (#[trigger] room.loaded[i]).mesh_id != (
            #[trigger] room.loaded[j]).mesh_id,
    ensures
        forall|i: int, j: int|
            0 <= i < j < room_after(room, draws).loaded.len() ==> (
            #[trigger] room_after(room, draws).loaded[i]).mesh_id != (
            #[trigger] room_after(room, draws).loaded[j]).mesh_id,
    decreases draws.len(),
{
    if draws.len() > 0 {
        no_mesh_is_loaded_twice(room, draws.drop_last());
        let before = room_after(room, draws.drop_last());
        let after = room_after(room, draws);
        if !before.has(draws.last().mesh.mesh_id) {
            assert forall|i: int, j: int| 0 <= i < j < after.loaded.len() implies (
            #[trigger] after.loaded[i]).mesh_id != (#[trigger] after.loaded[j]).mesh_id by {
                assert(after.loaded[i] == before.loaded[i]);
                if j < before.loaded.len() {
                    assert(after.loaded[j] == before.loaded[j]);
                }
            }
        }
    }
}

/// The calls of a frame follow each other: the first draws its instances from
/// zero on, and each next one from where the one before it ends.
pub proof fn calls_follow_each_other(
    room: RoomModel,
    draws: Seq<DrawTask>,
    i: int,
    call: DrawCall,
    next: DrawCall,
)
    requires
        0 <= i < draws.len() - 1,
        is_call_for(call, room, draws, i),
        is_call_for(next, room, draws, i + 1),
    ensures
        i == 0 ==> call.first_instance == 0,
        next.first_instance == call.first_instance + draws[i].instances,
{
    assert(instances_before(draws, i + 1) == instances_before(draws, i) + draws[i].instances);
}

/// A call draws its own task: all instances and indices of it, from where the
/// first loaded mesh with the task's id lies, and textured where that mesh is.
pub proof fn a_call_draws_its_task(room: RoomModel, draws: Seq<DrawTask>, i: int, call: DrawCall)
    requires
        0 <= i < draws.len(),
        is_call_for(call, room, draws, i),
    ensures
        i == 0 ==> call.first_instance == 0,
        call.instance_count == draws[i].instances,
        call.index_count == draws[i].mesh.index_count,
        exists|k: int|
            0 <= k < room.loaded.len() && (#[trigger] room.loaded[k]).mesh_id
                == draws[i].mesh.mesh_id && call.first_index == room.loaded[k].index_offset
                && call.vertex_offset == room.loaded[k].vertex_offset && call.textured
                == room.loaded[k].textured && forall|j: int|
                0 <= j < k ==> (#[trigger] room.loaded[j]).mesh_id != draws[i].mesh.mesh_id,
{
    let k = choose|k: int| #[trigger]
        is_loaded_at(room.loaded, draws[i].mesh.mesh_id, k) && call.first_index
            == room.loaded[k].index_offset && call.vertex_offset == room.loaded[k].vertex_offset
            && call.textured == room.loaded[k].textured;
    assert(room.loaded[k].mesh_id == draws[i].mesh.mesh_id);
}

/// The instances before a task are those of all tasks in front of it.
pub proof fn instances_are_added_up(draws: Seq<DrawTask>, i: int)
    requires
        0 <= i <= draws.len(),
    ensures
        instances_before(draws, i) == draws.take(i).fold_left(
            0,
            |n: int, d: DrawTask| n + d.instances,
        ),
    decreases i,
{
    if i > 0 {
        instances_are_added_up(draws, i - 1);
        assert(draws.take(i).drop_last() =~= draws.take(i - 1));
    } else {
        assert(draws.take(0) =~= Seq::<DrawTask>::empty());
    }
}

/// Offsets can be counted where they are neither negative nor beyond what holds
/// them; and a mesh is found where it is the first with its id.
pub proof fn offsets_can_be_counted(room: RoomModel, mesh_id: u64, i: int)
    ensures
        room_fits(room) <==> 0 <= room.vertex_byte <= 0xffff_ffff_ffff_ffff && 0 <= room.index_byte
            <= 0xffff_ffff_ffff_ffff && 0 <= room.vertex <= 0x7fff_ffff && 0 <= room.index
            <= 0xffff_ffff,
        is_loaded_at(room.loaded, mesh_id, i) ==> 0 <= i < room.loaded.len()
            && room.loaded[i].mesh_id == mesh_id && room.has(mesh_id),
        is_loaded_at(room.loaded, mesh_id, i) ==> forall|j: int|
            0 <= j < i ==> (#[trigger] room.loaded[j]).mesh_id != mesh_id,
        room.has(mesh_id) <==> exists|j: int|
            0 <= j < room.loaded.len() && (#[trigger] room.loaded[j]).mesh_id == mesh_id,
{
}

} // verus!
