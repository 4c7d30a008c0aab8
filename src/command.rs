use vstd::prelude::*;

verus! {

/// What a draw command paints with: a color, or a texture of the registry by
/// its handle.
#[derive(Clone, Copy, Debug)]
pub enum MaterialType<C> {
    Texture(usize),
    Color(C),
}

#[derive(Clone, Copy, Debug)]
pub struct Material<C> {
    pub kind: MaterialType<C>,
}

impl<C> Material<C> {
    pub fn color(color: C) -> (r: Self)
        ensures
            r.kind == MaterialType::<C>::Color(color),
    {
        Material { kind: MaterialType::Color(color) }
    }

    pub fn texture(texture: usize) -> (r: Self)
        ensures
            r.kind == MaterialType::<C>::Texture(texture),
    {
        Material { kind: MaterialType::Texture(texture) }
    }
}

/// One draw request of the current frame. `M` is the model matrix and `C` the
/// color, both carried through unchanged.
#[derive(Clone, Copy, Debug)]
pub struct DrawCommand<M, C> {
    pub mesh_id: usize,
    pub transform: M,
    pub z_index: u32,
    pub material: Material<C>,
}

/// The mode an instance hands to the shader for a color material.
pub const MODE_COLOR: u32 = 0;

/// The mode an instance hands to the shader for a texture material.
pub const MODE_TEXTURE: u32 = 1;

/// The per-instance record of the instance buffer, in the field order the
/// shader binds: model matrix, color, mode.
#[derive(Clone, Copy, Debug)]
pub struct InstanceData<M, C> {
    pub model: M,
    pub color: C,
    pub mode: u32,
}

/// The instance record of a command; a texture instance carries
/// `texture_color`, which the shader ignores.
pub open spec fn instance_of<M, C>(cmd: DrawCommand<M, C>, texture_color: C) -> InstanceData<M, C> {
    match cmd.material.kind {
        MaterialType::Color(color) => InstanceData { model: cmd.transform, color, mode: MODE_COLOR },
        MaterialType::Texture(_) => InstanceData {
            model: cmd.transform,
            color: texture_color,
            mode: MODE_TEXTURE,
        },
    }
}

pub open spec fn instances_of<M, C>(cmds: Seq<DrawCommand<M, C>>, texture_color: C) -> Seq<
    InstanceData<M, C>,
> {
    cmds.map_values(|cmd: DrawCommand<M, C>| instance_of(cmd, texture_color))
}

pub fn make_instance<M: Copy, C: Copy>(cmd: &DrawCommand<M, C>, texture_color: C) -> (r:
    InstanceData<M, C>)
    ensures
        r == instance_of(*cmd, texture_color),
{
    match cmd.material.kind {
        MaterialType::Color(color) => InstanceData { model: cmd.transform, color, mode: MODE_COLOR },
        MaterialType::Texture(_) => InstanceData {
            model: cmd.transform,
            color: texture_color,
            mode: MODE_TEXTURE,
        },
    }
}

/// Command `i` of `s` goes before command `j`: a lower z-index first, and
/// among equal z-indices the one inserted first.
pub open spec fn draws_before<M, C>(s: Seq<DrawCommand<M, C>>, i: int, j: int) -> bool {
    s[i].z_index < s[j].z_index || (s[i].z_index == s[j].z_index && i < j)
}

/// `p` lists the positions of `s` in drawing order.
pub open spec fn is_z_order<M, C>(s: Seq<DrawCommand<M, C>>, p: Seq<int>) -> bool {
    &&& p.len() == s.len()
    &&& forall|k: int| 0 <= k < p.len() ==> 0 <= #[trigger] p[k] < s.len()
    &&& forall|k: int, l: int|
        0 <= k < l < p.len() ==> draws_before(s, #[trigger] p[k], #[trigger] p[l])
    &&& forall|i: int| 0 <= i < s.len() ==> #[trigger] p.contains(i)
}

/// `r` is `s` stably sorted by ascending z-index.
pub open spec fn is_stable_z_sort<M, C>(s: Seq<DrawCommand<M, C>>, r: Seq<DrawCommand<M, C>>) -> bool {
    exists|p: Seq<int>|
        is_z_order(s, p) && r.len() == p.len() && forall|k: int|
            0 <= k < r.len() ==> #[trigger] r[k] == s[p[k]]
}

/// The z-indices of `s` never decrease.
pub open spec fn is_z_sorted<M, C>(s: Seq<DrawCommand<M, C>>) -> bool {
    forall|i: int, j: int| 0 <= i <= j < s.len() ==> #[trigger] s[i].z_index <= #[trigger] s[j].z_index
}

/// Stably sorts commands by ascending z-index: commands of equal z-index keep
/// the order in which they were inserted.
pub fn sort_by_z<M: Copy, C: Copy>(cmds: &Vec<DrawCommand<M, C>>) -> (r: Vec<DrawCommand<M, C>>)
    ensures
        is_stable_z_sort(cmds@, r@),
{
    let n = cmds.len();
    let mut order: Vec<usize> = Vec::new();
    let mut i: usize = 0;
    while i < n
        invariant
            n == cmds@.len(),
            i <= n,
            order@.len() == i,
            forall|k: int| 0 <= k < order@.len() ==> #[trigger] order@[k] < i,
            forall|k: int, l: int|
                0 <= k < l < order@.len() ==> draws_before(
                    cmds@,
                    #[trigger] order@[k] as int,
                    #[trigger] order@[l] as int,
                ),
            forall|m: usize| m < i ==> #[trigger] order@.contains(m),
        decreases n - i,
    {
        let z = cmds[i].z_index;
        let mut j: usize = 0;
        while j < order.len() && cmds[order[j]].z_index <= z
            invariant
                n == cmds@.len(),
                i < n,
                z == cmds@[i as int].z_index,
                j <= order@.len(),
                forall|k: int| 0 <= k < order@.len() ==> #[trigger] order@[k] < i,
                forall|k: int| 0 <= k < j ==> cmds@[#[trigger] order@[k] as int].z_index <= z,
            decreases order@.len() - j,
        {
            j = j + 1;
        }
        proof {
            if j < order@.len() {
                assert(cmds@[order@[j as int] as int].z_index > z);
                assert forall|k: int| j <= k < order@.len() implies cmds@[#[trigger] order@[k] as int].z_index > z by {
                    if k > j {
                        assert(draws_before(cmds@, order@[j as int] as int, order@[k] as int));
                    }
                }
            }
        }
        let ghost before = order@;
        order.insert(j, i);
        proof {
            assert forall|k: int, l: int|
                0 <= k < l < order@.len() implies draws_before(
                    cmds@,
                    #[trigger] order@[k] as int,
                    #[trigger] order@[l] as int,
                ) by {
                if k < j && l < j {
                    assert(order@[k] == before[k] && order@[l] == before[l]);
                } else if k < j && l == j {
                    assert(cmds@[before[k] as int].z_index <= z);
                } else if k < j {
                    assert(order@[k] == before[k] && order@[l] == before[l - 1]);
                } else if k == j {
                    assert(order@[l] == before[l - 1]);
                    assert(cmds@[before[l - 1] as int].z_index > z);
                } else {
                    assert(order@[k] == before[k - 1] && order@[l] == before[l - 1]);
                }
            }
            assert forall|m: usize| m < i + 1 implies #[trigger] order@.contains(m) by {
                if m == i {
                    assert(order@[j as int] == m);
                } else {
                    assert(before.contains(m));
                    let w = choose|w: int| 0 <= w < before.len() && before[w] == m;
                    if w < j {
                        assert(order@[w] == m);
                    } else {
                        assert(order@[w + 1] == m);
                    }
                }
            }
            assert forall|k: int| 0 <= k < order@.len() implies #[trigger] order@[k] < i + 1 by {
                if k < j {
                    assert(order@[k] == before[k]);
                } else if k > j {
                    assert(order@[k] == before[k - 1]);
                }
            }
        }
        i = i + 1;
    }
    let mut r: Vec<DrawCommand<M, C>> = Vec::new();
    let mut k: usize = 0;
    while k < n
        invariant
            n == cmds@.len(),
            order@.len() == n,
            forall|m: int| 0 <= m < order@.len() ==> #[trigger] order@[m] < n,
            forall|m: usize| m < n ==> #[trigger] order@.contains(m),
            k <= n,
            r@.len() == k,
            forall|m: int| 0 <= m < k ==> #[trigger] r@[m] == cmds@[order@[m] as int],
        decreases n - k,
    {
        r.push(cmds[order[k]]);
        k = k + 1;
    }
    let ghost p = order@.map_values(|x: usize| x as int);
    assert forall|m: int| 0 <= m < n implies #[trigger] p.contains(m) by {
        assert(order@.contains(m as usize));
        let w = choose|w: int| 0 <= w < order@.len() && order@[w] == m as usize;
        assert(p[w] == m);
    }
    assert(is_z_order(cmds@, p));
    assert(forall|m: int| 0 <= m < r@.len() ==> #[trigger] r@[m] == cmds@[p[m]]);
    r
}

/// A stable z-sort yields commands in ascending z-index order.
pub proof fn lemma_stable_z_sort_is_sorted<M, C>(s: Seq<DrawCommand<M, C>>, r: Seq<DrawCommand<M, C>>)
    requires
        is_stable_z_sort(s, r),
    ensures
        is_z_sorted(r),
        r.len() == s.len(),
{
    let p = choose|p: Seq<int>|
        is_z_order(s, p) && r.len() == p.len() && forall|k: int|
            0 <= k < r.len() ==> #[trigger] r[k] == s[p[k]];
    assert forall|i: int, j: int| 0 <= i <= j < r.len() implies #[trigger] r[i].z_index
        <= #[trigger] r[j].z_index by {
        if i < j {
            assert(draws_before(s, p[i], p[j]));
        }
    }
}

proof fn lemma_increasing_at_least(p: Seq<int>, k: int)
    requires
        0 <= k < p.len(),
        forall|i: int| 0 <= i < p.len() ==> 0 <= #[trigger] p[i] < p.len(),
        forall|i: int, j: int| 0 <= i < j < p.len() ==> #[trigger] p[i] < #[trigger] p[j],
    ensures
        p[k] >= k,
    decreases k,
{
    if k > 0 {
        lemma_increasing_at_least(p, k - 1);
        assert(p[k - 1] < p[k]);
    }
}

proof fn lemma_increasing_at_most(p: Seq<int>, k: int)
    requires
        0 <= k < p.len(),
        forall|i: int| 0 <= i < p.len() ==> 0 <= #[trigger] p[i] < p.len(),
        forall|i: int, j: int| 0 <= i < j < p.len() ==> #[trigger] p[i] < #[trigger] p[j],
    ensures
        p[k] <= k,
    decreases p.len() - k,
{
    if k < p.len() - 1 {
        lemma_increasing_at_most(p, k + 1);
        assert(p[k] < p[k + 1]);
    }
}

proof fn lemma_increasing_is_identity(p: Seq<int>)
    requires
        forall|k: int| 0 <= k < p.len() ==> 0 <= #[trigger] p[k] < p.len(),
        forall|k: int, l: int| 0 <= k < l < p.len() ==> #[trigger] p[k] < #[trigger] p[l],
    ensures
        forall|k: int| 0 <= k < p.len() ==> #[trigger] p[k] == k,
{
    assert forall|k: int| 0 <= k < p.len() implies #[trigger] p[k] == k by {
        lemma_increasing_at_least(p, k);
        lemma_increasing_at_most(p, k);
    }
}

/// A stable z-sort leaves commands that are already in z-index order as they are.
pub proof fn lemma_stable_z_sort_of_sorted<M, C>(s: Seq<DrawCommand<M, C>>, r: Seq<DrawCommand<M, C>>)
    requires
        is_z_sorted(s),
        is_stable_z_sort(s, r),
    ensures
        r == s,
{
    let p = choose|p: Seq<int>|
        is_z_order(s, p) && r.len() == p.len() && forall|k: int|
            0 <= k < r.len() ==> #[trigger] r[k] == s[p[k]];
    assert forall|k: int, l: int| 0 <= k < l < p.len() implies #[trigger] p[k] < #[trigger] p[l] by {
        assert(draws_before(s, p[k], p[l]));
        if p[l] <= p[k] {
            assert(s[p[l]].z_index <= s[p[k]].z_index);
        }
    }
    lemma_increasing_is_identity(p);
    assert(r =~= s);
}

} // verus!
