//! The order in which the surfaces of a level are drawn.
//!
//! Every surface is a fan of triangles about its first vertex. The
//! triangles of all surfaces with one texture are drawn by one command, so
//! their indices stand together in the index buffer: first the range of
//! texture 0, then that of texture 1, and so on. A hidden surface has room
//! in the range of its texture, but its triangles are not filled in.

use vstd::prelude::*;

verus! {

/// What the order of drawing needs to know of a surface.
#[derive(Clone, Copy, PartialEq, Eq, Structural, Debug)]
pub struct SurfaceShape {
    /// The number of edges, and so of vertices.
    pub num_edges: i16,
    /// The texture of the surface.
    pub tex_num: u32,
    /// Whether the surface is left out of the drawing.
    pub hidden: bool,
}

/// A command that draws a range of the index buffer.
#[derive(Clone, Copy, PartialEq, Eq, Structural, Debug)]
pub struct DrawCommand {
    pub count: i32,
    pub instance_count: i32,
    pub first_index: i32,
    pub base_vertex: i32,
    pub base_instance: u32,
}

/// The number of indices of the fan of a surface with `num_edges` edges:
/// three for each edge beyond the second.
pub open spec fn fan_len(num_edges: int) -> int {
    if num_edges > 2 {
        3 * (num_edges - 2)
    } else {
        0
    }
}

/// The number of vertices of a surface with `num_edges` edges.
pub open spec fn vertex_count(num_edges: int) -> int {
    if num_edges > 0 {
        num_edges
    } else {
        0
    }
}

/// The number of indices of the first `n` surfaces.
pub open spec fn total_upto(surfs: Seq<SurfaceShape>, n: int) -> int
    decreases n,
{
    if n <= 0 {
        0
    } else {
        total_upto(surfs, n - 1) + fan_len(surfs[n - 1].num_edges as int)
    }
}

/// The number of indices of those of the first `n` surfaces that have the
/// texture `t`.
pub open spec fn count_upto(surfs: Seq<SurfaceShape>, t: int, n: int) -> int
    decreases n,
{
    if n <= 0 {
        0
    } else {
        count_upto(surfs, t, n - 1) + if surfs[n - 1].tex_num == t {
            fan_len(surfs[n - 1].num_edges as int)
        } else {
            0
        }
    }
}

/// The number of indices of those of the first `n` surfaces that have the
/// texture `t` and are not hidden.
pub open spec fn shown_upto(surfs: Seq<SurfaceShape>, t: int, n: int) -> int
    decreases n,
{
    if n <= 0 {
        0
    } else {
        shown_upto(surfs, t, n - 1) + if surfs[n - 1].tex_num == t && !surfs[n - 1].hidden {
            fan_len(surfs[n - 1].num_edges as int)
        } else {
            0
        }
    }
}

/// The number of vertices of the first `n` surfaces: the first vertex of
/// surface `n`.
pub open spec fn vertex_upto(surfs: Seq<SurfaceShape>, n: int) -> int
    decreases n,
{
    if n <= 0 {
        0
    } else {
        vertex_upto(surfs, n - 1) + vertex_count(surfs[n - 1].num_edges as int)
    }
}

/// Where the range of texture `t` starts in the index buffer: after the
/// ranges of the textures before it.
pub open spec fn first_index(surfs: Seq<SurfaceShape>, t: int) -> int
    decreases t,
{
    if t <= 0 {
        0
    } else {
        first_index(surfs, t - 1) + count_upto(surfs, t - 1, surfs.len() as int)
    }
}

/// Whether every surface has one of the first `tex_count` textures.
pub open spec fn textures_in_range(surfs: Seq<SurfaceShape>, tex_count: int) -> bool {
    forall|s: int| 0 <= s < surfs.len() ==> (#[trigger] surfs[s]).tex_num < tex_count
}

/// Where triangle `j` of the fan of surface `s` stands in the index buffer.
pub open spec fn fan_slot(surfs: Seq<SurfaceShape>, s: int, j: int) -> int {
    first_index(surfs, surfs[s].tex_num as int) + shown_upto(surfs, surfs[s].tex_num as int, s)
        + 3 * j
}

/// Whether `(s, j)` names a triangle that is drawn: `s` is one of the first
/// `n` surfaces and not hidden, and `j` is one of its triangles.
pub open spec fn is_triangle(surfs: Seq<SurfaceShape>, n: int, s: int, j: int) -> bool {
    0 <= s < n && s < surfs.len() && !surfs[s].hidden && 0 <= j && 3 * j < fan_len(
        surfs[s].num_edges as int,
    )
}

/// Whether index `i` belongs to a triangle of the first `n` surfaces.
pub open spec fn in_fan(surfs: Seq<SurfaceShape>, n: int, i: int) -> bool {
    exists|s: int, j: int|
        is_triangle(surfs, n, s, j) && #[trigger] fan_slot(surfs, s, j) <= i < fan_slot(
            surfs,
            s,
            j,
        ) + 3
}

/// The counts grow with the number of surfaces, and what is shown is part
/// of what is counted.
proof fn lemma_counts_grow(surfs: Seq<SurfaceShape>, t: int, low: int, high: int)
    requires
        low <= high,
    ensures
        0 <= count_upto(surfs, t, low) <= count_upto(surfs, t, high),
        0 <= shown_upto(surfs, t, low) <= shown_upto(surfs, t, high),
        shown_upto(surfs, t, high) - shown_upto(surfs, t, low) <= count_upto(surfs, t, high)
            - count_upto(surfs, t, low),
        0 <= total_upto(surfs, low) <= total_upto(surfs, high),
        0 <= vertex_upto(surfs, low) <= vertex_upto(surfs, high),
        count_upto(surfs, t, high) <= total_upto(surfs, high),
    decreases high - low, high,
{
    if low < high {
        lemma_counts_grow(surfs, t, low, high - 1);
    } else if high > 0 {
        lemma_counts_grow(surfs, t, high - 1, high - 1);
    }
}

/// The ranges of the textures follow each other.
proof fn lemma_ranges_in_order(surfs: Seq<SurfaceShape>, low: int, high: int)
    requires
        0 <= low <= high,
    ensures
        0 <= first_index(surfs, low),
        low < high ==> first_index(surfs, low) + count_upto(surfs, low, surfs.len() as int)
            <= first_index(surfs, high),
        first_index(surfs, low) <= first_index(surfs, high),
    decreases high,
{
    lemma_counts_grow(surfs, low, 0, surfs.len() as int);
    if low < high {
        lemma_ranges_in_order(surfs, low, high - 1);
        lemma_counts_grow(surfs, high - 1, 0, surfs.len() as int);
    } else if low > 0 {
        lemma_ranges_in_order(surfs, 0, low - 1);
        lemma_counts_grow(surfs, low - 1, 0, surfs.len() as int);
        lemma_ranges_start(surfs, low);
    }
}

/// No range starts before the start of the buffer.
proof fn lemma_ranges_start(surfs: Seq<SurfaceShape>, t: int)
    ensures
        0 <= first_index(surfs, t),
    decreases t,
{
    if t > 0 {
        lemma_ranges_start(surfs, t - 1);
        lemma_counts_grow(surfs, t - 1, 0, surfs.len() as int);
    }
}

/// The sum over the textures of the indices of the first `n` surfaces with
/// each texture.
spec fn spread_upto(surfs: Seq<SurfaceShape>, t: int, n: int) -> int
    decreases t,
{
    if t <= 0 {
        0
    } else {
        spread_upto(surfs, t - 1, n) + count_upto(surfs, t - 1, n)
    }
}

/// One more surface adds its indices to the sum over the textures once,
/// where its texture is among them, and not at all otherwise.
proof fn lemma_spread_step(surfs: Seq<SurfaceShape>, t: int, n: int)
    requires
        0 < n,
        0 <= t,
    ensures
        spread_upto(surfs, t, n) == spread_upto(surfs, t, n - 1) + if surfs[n - 1].tex_num < t {
            fan_len(surfs[n - 1].num_edges as int)
        } else {
            0
        },
    decreases t,
{
    if t > 0 {
        lemma_spread_step(surfs, t - 1, n);
    }
}

/// The sum over the textures counts every surface once.
proof fn lemma_spread_total(surfs: Seq<SurfaceShape>, tex_count: int, n: int)
    requires
        0 <= tex_count,
        0 <= n <= surfs.len(),
        textures_in_range(surfs, tex_count),
    ensures
        spread_upto(surfs, tex_count, n) == total_upto(surfs, n),
    decreases n,
{
    if n > 0 {
        lemma_spread_total(surfs, tex_count, n - 1);
        lemma_spread_step(surfs, tex_count, n);
        assert(surfs[n - 1].tex_num < tex_count);
    } else {
        lemma_spread_empty(surfs, tex_count);
    }
}

proof fn lemma_spread_empty(surfs: Seq<SurfaceShape>, t: int)
    ensures
        spread_upto(surfs, t, 0) == 0,
    decreases t,
{
    if t > 0 {
        lemma_spread_empty(surfs, t - 1);
    }
}

proof fn lemma_spread_is_first(surfs: Seq<SurfaceShape>, t: int)
    ensures
        spread_upto(surfs, t, surfs.len() as int) == first_index(surfs, t),
    decreases t,
{
    if t > 0 {
        lemma_spread_is_first(surfs, t - 1);
    }
}

/// The ranges of all textures fill the index buffer: the range after the
/// last texture would start at the end of the buffer.
pub proof fn lemma_ranges_fill(surfs: Seq<SurfaceShape>, tex_count: int)
    requires
        0 <= tex_count,
        textures_in_range(surfs, tex_count),
    ensures
        first_index(surfs, tex_count) == total_upto(surfs, surfs.len() as int),
{
    lemma_spread_total(surfs, tex_count, surfs.len() as int);
    lemma_spread_is_first(surfs, tex_count);
}

/// Every triangle lies in the index buffer, in the range of its texture.
pub proof fn lemma_slot_in_range(surfs: Seq<SurfaceShape>, tex_count: int, s: int, j: int)
    requires
        0 <= tex_count,
        textures_in_range(surfs, tex_count),
        is_triangle(surfs, surfs.len() as int, s, j),
    ensures
        first_index(surfs, surfs[s].tex_num as int) <= fan_slot(surfs, s, j),
        fan_slot(surfs, s, j) + 3 <= first_index(surfs, surfs[s].tex_num as int) + shown_upto(
            surfs,
            surfs[s].tex_num as int,
            s + 1,
        ),
        fan_slot(surfs, s, j) + 3 <= first_index(surfs, surfs[s].tex_num + 1),
        0 <= fan_slot(surfs, s, j),
        fan_slot(surfs, s, j) + 3 <= total_upto(surfs, surfs.len() as int),
{
    let t = surfs[s].tex_num as int;
    let n = surfs.len() as int;
    lemma_counts_grow(surfs, t, 0, s);
    lemma_counts_grow(surfs, t, s + 1, n);
    lemma_counts_grow(surfs, t, 0, s + 1);
    lemma_ranges_in_order(surfs, t, t + 1);
    lemma_ranges_in_order(surfs, t + 1, tex_count);
    lemma_ranges_fill(surfs, tex_count);
}

/// Two triangles that are not the same do not share an index.
pub proof fn lemma_slots_apart(
    surfs: Seq<SurfaceShape>,
    tex_count: int,
    s1: int,
    j1: int,
    s2: int,
    j2: int,
)
    requires
        0 <= tex_count,
        textures_in_range(surfs, tex_count),
        is_triangle(surfs, surfs.len() as int, s1, j1),
        is_triangle(surfs, surfs.len() as int, s2, j2),
        s1 != s2 || j1 != j2,
    ensures
        fan_slot(surfs, s1, j1) + 3 <= fan_slot(surfs, s2, j2) || fan_slot(surfs, s2, j2) + 3
            <= fan_slot(surfs, s1, j1),
{
    let t1 = surfs[s1].tex_num as int;
    let t2 = surfs[s2].tex_num as int;
    lemma_slot_in_range(surfs, tex_count, s1, j1);
    lemma_slot_in_range(surfs, tex_count, s2, j2);
    if t1 < t2 {
        lemma_ranges_in_order(surfs, t1 + 1, t2);
    } else if t2 < t1 {
        lemma_ranges_in_order(surfs, t2 + 1, t1);
    } else if s1 < s2 {
        lemma_counts_grow(surfs, t1, s1 + 1, s2);
    } else if s2 < s1 {
        lemma_counts_grow(surfs, t1, s2 + 1, s1);
    }
}

/// The number of indices of the fan of a surface.
pub fn fan_indices(num_edges: i16) -> (r: i32)
    ensures
        r == fan_len(num_edges as int),
{
    if num_edges > 2 {
        3 * (num_edges as i32 - 2)
    } else {
        0
    }
}

/// The number of indices of all surfaces, or nothing where it is beyond a
/// signed number of four bytes.
pub fn total_indices(surfs: &Vec<SurfaceShape>) -> (r: Option<i32>)
    ensures
        r.is_some() == (total_upto(surfs@, surfs@.len() as int) <= i32::MAX),
        r matches Some(total) ==> total == total_upto(surfs@, surfs@.len() as int),
{
    let mut total: i32 = 0;
    let mut n: usize = 0;
    while n < surfs.len()
        invariant
            0 <= n <= surfs.len(),
            0 <= total,
            total == total_upto(surfs@, n as int),
        decreases surfs.len() - n,
    {
        let len: i32 = fan_indices(surfs[n].num_edges);
        if len > i32::MAX - total {
            proof {
                lemma_counts_grow(surfs@, 0, n + 1, surfs@.len() as int);
            }
            return None;
        }
        total = total + len;
        n = n + 1;
    }
    Some(total)
}

/// The number of vertices of all surfaces, or nothing where it is beyond
/// a number of four bytes.
pub fn total_vertices(surfs: &Vec<SurfaceShape>) -> (r: Option<u32>)
    ensures
        r.is_some() == (vertex_upto(surfs@, surfs@.len() as int) <= u32::MAX),
        r matches Some(total) ==> total == vertex_upto(surfs@, surfs@.len() as int),
{
    let mut total: u32 = 0;
    let mut n: usize = 0;
    while n < surfs.len()
        invariant
            0 <= n <= surfs.len(),
            total == vertex_upto(surfs@, n as int),
        decreases surfs.len() - n,
    {
        let count: u32 = if surfs[n].num_edges > 0 {
            surfs[n].num_edges as u32
        } else {
            0
        };
        if count > u32::MAX - total {
            proof {
                lemma_counts_grow(surfs@, 0, n + 1, surfs@.len() as int);
            }
            return None;
        }
        total = total + count;
        n = n + 1;
    }
    Some(total)
}

/// Whether every surface has one of the first `tex_count` textures.
pub fn textures_fit(surfs: &Vec<SurfaceShape>, tex_count: usize) -> (r: bool)
    ensures
        r == textures_in_range(surfs@, tex_count as int),
{
    let mut n: usize = 0;
    while n < surfs.len()
        invariant
            0 <= n <= surfs.len(),
            forall|s: int| 0 <= s < n ==> (#[trigger] surfs@[s]).tex_num < tex_count,
        decreases surfs.len() - n,
    {
        if surfs[n].tex_num as usize >= tex_count {
            return false;
        }
        n = n + 1;
    }
    true
}

/// The commands that draw a level, one for each texture: the command of a
/// texture draws the range of the texture, which has room for the fans of
/// all surfaces with the texture.
pub fn build_commands(surfs: &Vec<SurfaceShape>, tex_count: usize) -> (cmds: Vec<DrawCommand>)
    requires
        textures_in_range(surfs@, tex_count as int),
        total_upto(surfs@, surfs@.len() as int) <= i32::MAX,
    ensures
        cmds@.len() == tex_count,
        forall|t: int|
            0 <= t < tex_count ==> #[trigger] cmds@[t] == (DrawCommand {
                count: count_upto(surfs@, t, surfs@.len() as int) as i32,
                instance_count: 1,
                first_index: first_index(surfs@, t) as i32,
                base_vertex: 0,
                base_instance: 0,
            }),
{
    let ghost len = surfs@.len() as int;
    let mut cmds: Vec<DrawCommand> = Vec::new();
    while cmds.len() < tex_count
        invariant
            cmds.len() <= tex_count,
            forall|t: int|
                0 <= t < cmds.len() ==> #[trigger] cmds@[t] == (DrawCommand {
                    count: 0,
                    instance_count: 1,
                    first_index: 0,
                    base_vertex: 0,
                    base_instance: 0,
                }),
        decreases tex_count - cmds.len(),
    {
        cmds.push(
            DrawCommand {
                count: 0,
                instance_count: 1,
                first_index: 0,
                base_vertex: 0,
                base_instance: 0,
            },
        );
    }
    let mut n: usize = 0;
    while n < surfs.len()
        invariant
            len == surfs@.len(),
            textures_in_range(surfs@, tex_count as int),
            total_upto(surfs@, len) <= i32::MAX,
            cmds.len() == tex_count,
            0 <= n <= surfs.len(),
            forall|t: int|
                0 <= t < tex_count ==> #[trigger] cmds@[t] == (DrawCommand {
                    count: count_upto(surfs@, t, n as int) as i32,
                    instance_count: 1,
                    first_index: 0,
                    base_vertex: 0,
                    base_instance: 0,
                }),
        decreases surfs.len() - n,
    {
        let surf = surfs[n];
        let tex: usize = surf.tex_num as usize;
        assert(surfs@[n as int].tex_num < tex_count);
        proof {
            lemma_counts_grow(surfs@, tex as int, 0, n + 1);
            lemma_counts_grow(surfs@, tex as int, n + 1, len);
            lemma_counts_grow(surfs@, tex as int, 0, n as int);
            assert forall|t: int| 0 <= t < tex_count implies 0 <= #[trigger] count_upto(
                surfs@,
                t,
                n as int,
            ) <= i32::MAX && 0 <= count_upto(surfs@, t, n + 1) <= i32::MAX by {
                lemma_counts_grow(surfs@, t, 0, n as int);
                lemma_counts_grow(surfs@, t, n as int, n + 1);
                lemma_counts_grow(surfs@, t, n + 1, len);
            }
        }
        let mut cmd = cmds[tex];
        cmd.count = cmd.count + fan_indices(surf.num_edges);
        cmds.set(tex, cmd);
        n = n + 1;
    }
    let mut sum: i32 = 0;
    let mut t: usize = 0;
    while t < tex_count
        invariant
            len == surfs@.len(),
            textures_in_range(surfs@, tex_count as int),
            total_upto(surfs@, len) <= i32::MAX,
            cmds.len() == tex_count,
            0 <= t <= tex_count,
            sum == first_index(surfs@, t as int),
            forall|u: int|
                0 <= u < t ==> #[trigger] cmds@[u] == (DrawCommand {
                    count: count_upto(surfs@, u, len) as i32,
                    instance_count: 1,
                    first_index: first_index(surfs@, u) as i32,
                    base_vertex: 0,
                    base_instance: 0,
                }),
            forall|u: int|
                t <= u < tex_count ==> #[trigger] cmds@[u] == (DrawCommand {
                    count: count_upto(surfs@, u, len) as i32,
                    instance_count: 1,
                    first_index: 0,
                    base_vertex: 0,
                    base_instance: 0,
                }),
        decreases tex_count - t,
    {
        proof {
            lemma_ranges_in_order(surfs@, t as int, t + 1);
            lemma_ranges_in_order(surfs@, t + 1, tex_count as int);
            lemma_ranges_fill(surfs@, tex_count as int);
            lemma_counts_grow(surfs@, t as int, 0, len);
        }
        let mut cmd = cmds[t];
        cmd.first_index = sum;
        sum = sum + cmd.count;
        cmds.set(t, cmd);
        t = t + 1;
    }
    cmds
}

/// Whether the three indices of triangle `j` of surface `s` stand in the
/// buffer: the first vertex of the surface, and the vertices `j + 2` and
/// `j + 1` after it.
pub open spec fn triangle_stands(
    indexes: Seq<u32>,
    surfs: Seq<SurfaceShape>,
    s: int,
    j: int,
) -> bool {
    &&& indexes[fan_slot(surfs, s, j)] == vertex_upto(surfs, s)
    &&& indexes[fan_slot(surfs, s, j) + 1] == vertex_upto(surfs, s) + j + 2
    &&& indexes[fan_slot(surfs, s, j) + 2] == vertex_upto(surfs, s) + j + 1
}

/// The first vertex of each surface: the vertices of the surfaces follow
/// each other in the vertex buffer.
pub fn first_vertices(surfs: &Vec<SurfaceShape>) -> (firsts: Vec<u32>)
    requires
        vertex_upto(surfs@, surfs@.len() as int) <= u32::MAX,
    ensures
        firsts@.len() == surfs@.len(),
        forall|s: int| 0 <= s < surfs@.len() ==> #[trigger] firsts@[s] == vertex_upto(surfs@, s),
{
    let mut firsts: Vec<u32> = Vec::new();
    let mut next: u32 = 0;
    while firsts.len() < surfs.len()
        invariant
            vertex_upto(surfs@, surfs@.len() as int) <= u32::MAX,
            firsts.len() <= surfs.len(),
            next == vertex_upto(surfs@, firsts.len() as int),
            forall|s: int| 0 <= s < firsts.len() ==> #[trigger] firsts@[s] == vertex_upto(surfs@, s),
        decreases surfs.len() - firsts.len(),
    {
        let n: usize = firsts.len();
        proof {
            lemma_counts_grow(surfs@, 0, n + 1, surfs@.len() as int);
        }
        firsts.push(next);
        if surfs[n].num_edges > 0 {
            next = next + surfs[n].num_edges as u32;
        }
    }
    firsts
}

/// The index buffer of a level.
///
/// The buffer has room for the fans of all surfaces. The fan of a surface
/// that is not hidden stands in the range of its texture, after the fans
/// of the surfaces before it that have the texture and are not hidden.
/// Every index that belongs to no such fan is zero.
pub fn build_indexes(surfs: &Vec<SurfaceShape>, tex_count: usize) -> (indexes: Vec<u32>)
    requires
        textures_in_range(surfs@, tex_count as int),
        total_upto(surfs@, surfs@.len() as int) <= i32::MAX,
        vertex_upto(surfs@, surfs@.len() as int) <= u32::MAX,
    ensures
        indexes@.len() == total_upto(surfs@, surfs@.len() as int),
        forall|s: int, j: int|
            #[trigger] is_triangle(surfs@, surfs@.len() as int, s, j) ==> triangle_stands(
                indexes@,
                surfs@,
                s,
                j,
            ),
        forall|i: int|
            0 <= i < indexes@.len() && !in_fan(surfs@, surfs@.len() as int, i)
                ==> #[trigger] indexes@[i] == 0,
{
    let ghost len = surfs@.len() as int;
    let total: i32 = total_indices(surfs).unwrap();
    let cmds = build_commands(surfs, tex_count);
    let firsts = first_vertices(surfs);
    proof {
        lemma_counts_grow(surfs@, 0, 0, len);
        assert forall|t: int| 0 <= t < tex_count implies 0 <= #[trigger] first_index(surfs@, t)
            <= total by {
            lemma_ranges_in_order(surfs@, t, tex_count as int);
            lemma_ranges_fill(surfs@, tex_count as int);
        }
    }
    let mut indexes: Vec<u32> = Vec::new();
    while indexes.len() < total as usize
        invariant
            0 <= total,
            indexes.len() <= total,
            forall|i: int| 0 <= i < indexes.len() ==> #[trigger] indexes@[i] == 0,
        decreases total - indexes.len(),
    {
        indexes.push(0);
    }
    let mut cursors: Vec<usize> = Vec::new();
    while cursors.len() < tex_count
        invariant
            cmds@.len() == tex_count,
            cursors.len() <= tex_count,
            forall|t: int|
                0 <= t < tex_count ==> (#[trigger] cmds@[t]).first_index == first_index(
                    surfs@,
                    t,
                ) as i32,
            forall|t: int| 0 <= t < tex_count ==> 0 <= #[trigger] first_index(surfs@, t) <= total,
            forall|t: int|
                0 <= t < cursors.len() ==> #[trigger] cursors@[t] == first_index(surfs@, t),
        decreases tex_count - cursors.len(),
    {
        let t: usize = cursors.len();
        cursors.push(cmds[t].first_index as usize);
    }
    let mut n: usize = 0;
    while n < surfs.len()
        invariant
            len == surfs@.len(),
            textures_in_range(surfs@, tex_count as int),
            total == total_upto(surfs@, len),
            vertex_upto(surfs@, len) <= u32::MAX,
            firsts@.len() == len,
            forall|s: int| 0 <= s < len ==> #[trigger] firsts@[s] == vertex_upto(surfs@, s),
            indexes@.len() == total,
            cursors@.len() == tex_count,
            0 <= n <= surfs.len(),
            forall|t: int|
                0 <= t < tex_count ==> #[trigger] cursors@[t] == first_index(surfs@, t)
                    + shown_upto(surfs@, t, n as int),
            forall|s: int, j: int|
                #[trigger] is_triangle(surfs@, n as int, s, j) ==> triangle_stands(
                    indexes@,
                    surfs@,
                    s,
                    j,
                ),
            forall|i: int|
                0 <= i < indexes@.len() && !in_fan(surfs@, n as int, i)
                    ==> #[trigger] indexes@[i] == 0,
        decreases surfs.len() - n,
    {
        let surf = surfs[n];
        let tex: usize = surf.tex_num as usize;
        assert(surfs@[n as int].tex_num < tex_count);
        let ghost base = first_index(surfs@, tex as int) + shown_upto(surfs@, tex as int, n as int);
        if !surf.hidden && surf.num_edges > 2 {
            let start: usize = cursors[tex];
            let v0: u32 = firsts[n];
            let mut e: i16 = 2;
            proof {
                lemma_counts_grow(surfs@, 0, n + 1, len);
                lemma_counts_grow(surfs@, 0, n as int, n + 1);
            }
            while e < surf.num_edges
                invariant
                    len == surfs@.len(),
                    textures_in_range(surfs@, tex_count as int),
                    total == total_upto(surfs@, len),
                    indexes@.len() == total,
                    0 <= n < surfs.len(),
                    surf == surfs@[n as int],
                    !surf.hidden,
                    tex == surf.tex_num,
                    start == base,
                    base == fan_slot(surfs@, n as int, 0),
                    v0 == vertex_upto(surfs@, n as int),
                    v0 + surf.num_edges <= u32::MAX,
                    2 <= e <= surf.num_edges,
                    forall|s: int, j: int|
                        #[trigger] is_triangle(surfs@, n as int, s, j) ==> triangle_stands(
                            indexes@,
                            surfs@,
                            s,
                            j,
                        ),
                    forall|j: int|
                        0 <= j < e - 2 ==> #[trigger] triangle_stands(indexes@, surfs@, n as int, j),
                    forall|i: int|
                        0 <= i < indexes@.len() && !in_fan(surfs@, n as int, i) && !(base <= i
                            < base + 3 * (e - 2)) ==> #[trigger] indexes@[i] == 0,
                decreases surf.num_edges - e,
            {
                let ghost j = e - 2;
                let ghost before = indexes@;
                proof {
                    assert(is_triangle(surfs@, len, n as int, j));
                    lemma_slot_in_range(surfs@, tex_count as int, n as int, j);
                }
                let at: usize = start + 3 * (e as usize - 2);
                assert(at == fan_slot(surfs@, n as int, j));
                indexes.set(at, v0);
                indexes.set(at + 1, v0 + e as u32);
                indexes.set(at + 2, v0 + e as u32 - 1);
                proof {
                    assert forall|s: int, k: int| #[trigger]
                        is_triangle(surfs@, n as int, s, k) implies triangle_stands(
                        indexes@,
                        surfs@,
                        s,
                        k,
                    ) by {
                        assert(is_triangle(surfs@, len, s, k));
                        lemma_slot_in_range(surfs@, tex_count as int, s, k);
                        lemma_slots_apart(surfs@, tex_count as int, s, k, n as int, j);
                        assert(triangle_stands(before, surfs@, s, k));
                    }
                    assert forall|k: int| 0 <= k < e - 1 implies #[trigger] triangle_stands(
                        indexes@,
                        surfs@,
                        n as int,
                        k,
                    ) by {
                        if k < j {
                            assert(triangle_stands(before, surfs@, n as int, k));
                            assert(fan_slot(surfs@, n as int, k) + 3 <= at);
                        }
                    }
                }
                e = e + 1;
            }
            proof {
                lemma_counts_grow(surfs@, tex as int, 0, n + 1);
                lemma_counts_grow(surfs@, tex as int, n + 1, len);
                lemma_ranges_in_order(surfs@, tex as int, tex + 1);
                lemma_ranges_in_order(surfs@, tex + 1, tex_count as int);
                lemma_ranges_fill(surfs@, tex_count as int);
            }
            cursors.set(tex, start + 3 * (surf.num_edges as usize - 2));
        }
        proof {
            assert forall|s: int, j: int| #[trigger]
                is_triangle(surfs@, n + 1, s, j) implies triangle_stands(indexes@, surfs@, s, j) by {
                if s < n {
                    assert(is_triangle(surfs@, n as int, s, j));
                }
            }
            assert forall|i: int|
                0 <= i < indexes@.len() && !in_fan(surfs@, n + 1, i) implies #[trigger] indexes@[i]
                == 0 by {
                if in_fan(surfs@, n as int, i) {
                    let (s, j) = choose|s: int, j: int|
                        is_triangle(surfs@, n as int, s, j) && #[trigger] fan_slot(surfs@, s, j)
                            <= i < fan_slot(surfs@, s, j) + 3;
                    assert(is_triangle(surfs@, n + 1, s, j));
                    assert(fan_slot(surfs@, s, j) <= i < fan_slot(surfs@, s, j) + 3);
                }
                if !surf.hidden && surf.num_edges > 2 && base <= i < base + 3 * (surf.num_edges
                    - 2) {
                    let j = (i - base) / 3;
                    assert(is_triangle(surfs@, n + 1, n as int, j));
                    assert(fan_slot(surfs@, n as int, j) <= i < fan_slot(surfs@, n as int, j) + 3);
                }
            }
        }
        n = n + 1;
    }
    indexes
}

} // verus!
