//! What the game takes out of a loaded scene: the colliders, the ball's spawn and size, and the
//! mesh that shows it.

use vstd::prelude::*;

use crate::bits::float_max;
use crate::protocol::{ColliderInit, ColliderShapeMsg, ROLE_BALL, ROLE_FLOOR, ROLE_WALL};

verus! {

/// A scene of `awsm_renderer_scene`, as it came out of its text. Opaque here.
#[verifier::external_type_specification]
#[verifier::external_body]
pub struct ExScene(awsm_renderer_scene::Scene);

/// What reading a text can give: one of these scenes, or what is wrong with the text, in words.
pub uninterp spec fn scenes_of(text: Seq<char>) -> Result<
    Set<awsm_renderer_scene::Scene>,
    Seq<char>,
>;

/// `awsm_renderer_scene::project_dir::scene_from_toml`: reads a scene from its text. Whether the
/// text is a scene, and the words of the error if it is not, depend on the text alone. A text may
/// give several scenes: a custom material that is written without an id draws one at random. What
/// the scenes hold is not said.
#[verifier::external_body]
fn scene_from_toml(text: &str) -> (r: Result<awsm_renderer_scene::Scene, String>)
    ensures
        match r {
            Ok(scene) => scenes_of(text@) matches Ok(scenes) && scenes.contains(scene),
            Err(e) => scenes_of(text@) == Err::<Set<awsm_renderer_scene::Scene>, Seq<char>>(e@),
        },
{
    awsm_renderer_scene::project_dir::scene_from_toml(text).map_err(|e| format!("{e}"))
}

/// Reads a scene from its text.
pub fn parse_scene(text: &str) -> (r: Result<awsm_renderer_scene::Scene, String>)
    ensures
        match r {
            Ok(scene) => scenes_of(text@) matches Ok(scenes) && scenes.contains(scene),
            Err(e) => scenes_of(text@) matches Err(words) && e@ == parse_failure(words) && e@
                == "parse: "@ + words,
        },
{
    match scene_from_toml(text) {
        Ok(scene) => Ok(scene),
        Err(e) => Err(parse_error(e.as_str())),
    }
}

/// The report on a text that is no scene.
pub open spec fn parse_failure(error: Seq<char>) -> Seq<char> {
    "parse: "@ + error
}

/// The report on a text that is no scene, from the reader's words.
pub fn parse_error(error: &str) -> (r: String)
    ensures
        r@ == parse_failure(error@),
        r@ == "parse: "@ + error@,
{
    crate::text::join("parse: ", error)
}

/// The shape of an authored collider. Extents are float bits.
#[derive(Clone, Copy, Debug, PartialEq, Eq)]
pub enum SceneShape {
    Box { half_extents: [u32; 3] },
    Sphere { radius: u32 },
    Capsule { half_height: u32, radius: u32 },
    Cylinder { half_height: u32, radius: u32 },
    Cone { half_height: u32, radius: u32 },
    Ellipsoid,
}

/// What a node is, as far as the game cares.
#[derive(Clone, Copy, Debug, PartialEq, Eq)]
pub enum NodeContent {
    Collider(SceneShape),
    Mesh,
    SkinnedMesh,
    ClusterMesh,
    Other,
}

/// Where a node stands in the world: scale, rotation and translation (float bits).
#[derive(Clone, Copy, Debug, PartialEq, Eq)]
pub struct Placement {
    pub scale: [u32; 3],
    pub rotation: [u32; 4],
    pub translation: [u32; 3],
}

/// A node of the scene with its place in the world.
pub struct SceneNode {
    pub id: u128,
    pub name: String,
    pub content: NodeContent,
    pub place: Placement,
    pub children: Vec<SceneNode>,
}

/// The nodes of a subtree: the node itself, then the subtrees of its children, in order.
pub open spec fn preorder(node: SceneNode) -> Seq<SceneNode>
    decreases node, node.children@.len() + 2,
{
    seq![node] + preorder_of(node, node.children@.len())
}

/// The nodes of the subtrees of a node's first `n` children.
pub open spec fn preorder_of(node: SceneNode, n: nat) -> Seq<SceneNode>
    decreases node, n + 1,
{
    if n == 0 || n > node.children@.len() {
        Seq::empty()
    } else {
        preorder_of(node, (n - 1) as nat) + preorder(node.children@[n - 1])
    }
}

/// Whether a node carries geometry.
pub open spec fn is_mesh(content: NodeContent) -> bool {
    content is Mesh || content is SkinnedMesh || content is ClusterMesh
}

/// The first node with geometry among the given ones.
pub open spec fn first_mesh(nodes: Seq<SceneNode>) -> Option<u128>
    decreases nodes.len(),
{
    if nodes.len() == 0 {
        None
    } else if is_mesh(nodes[0].content) {
        Some(nodes[0].id)
    } else {
        first_mesh(nodes.skip(1))
    }
}

/// Looking through two lists, the first one comes first.
proof fn first_mesh_of_two(a: Seq<SceneNode>, b: Seq<SceneNode>)
    ensures
        first_mesh(a + b) == (if first_mesh(a) is Some {
            first_mesh(a)
        } else {
            first_mesh(b)
        }),
    decreases a.len(),
{
    if a.len() == 0 {
        assert(a + b =~= b);
    } else {
        assert((a + b).skip(1) =~= a.skip(1) + b);
        first_mesh_of_two(a.skip(1), b);
    }
}

/// The node that is found is the first one in the order that carries geometry of any kind: none
/// before it does, and where none is found none of them does.
pub proof fn first_mesh_is_first(nodes: Seq<SceneNode>)
    ensures
        first_mesh(nodes) is None <==> forall|j: int|
            0 <= j < nodes.len() ==> !((#[trigger] nodes[j]).content is Mesh
                || nodes[j].content is SkinnedMesh || nodes[j].content is ClusterMesh),
        first_mesh(nodes) matches Some(id) ==> exists|i: int|
            #![trigger nodes[i]]
            0 <= i < nodes.len() && nodes[i].id == id && (nodes[i].content is Mesh
                || nodes[i].content is SkinnedMesh || nodes[i].content is ClusterMesh) && forall|j: int|
                0 <= j < i ==> !((#[trigger] nodes[j]).content is Mesh
                    || nodes[j].content is SkinnedMesh || nodes[j].content is ClusterMesh),
    decreases nodes.len(),
{
    if nodes.len() > 0 && !is_mesh(nodes[0].content) {
        let rest = nodes.skip(1);
        first_mesh_is_first(rest);
        if first_mesh(rest) is None {
            assert forall|j: int| 0 <= j < nodes.len() implies !((#[trigger] nodes[j]).content
                is Mesh || nodes[j].content is SkinnedMesh || nodes[j].content is ClusterMesh) by {
                if j > 0 {
                    assert(nodes[j] == rest[j - 1]);
                }
            }
        } else {
            let id = first_mesh(rest)->0;
            let i = choose|i: int|
                #![trigger rest[i]]
                0 <= i < rest.len() && rest[i].id == id && (rest[i].content is Mesh
                    || rest[i].content is SkinnedMesh || rest[i].content is ClusterMesh) && forall|
                    j: int,
                |
                    0 <= j < i ==> !((#[trigger] rest[j]).content is Mesh
                        || rest[j].content is SkinnedMesh || rest[j].content is ClusterMesh);
            assert(nodes[i + 1] == rest[i]);
            assert forall|j: int| 0 <= j < i + 1 implies !((#[trigger] nodes[j]).content is Mesh
                || nodes[j].content is SkinnedMesh || nodes[j].content is ClusterMesh) by {
                if j > 0 {
                    assert(nodes[j] == rest[j - 1]);
                }
            }
        }
    } else if nodes.len() > 0 {
        assert(nodes[0].content is Mesh || nodes[0].content is SkinnedMesh
            || nodes[0].content is ClusterMesh);
    }
}

/// A walk over a subtree comes to the node itself first and then to the subtree of each child, one
/// behind the other in the order of the children, and to nothing else.
pub proof fn walk_goes_through_the_children(node: SceneNode, i: nat)
    ensures
        preorder(node).len() > 0,
        preorder(node)[0] == node,
        preorder(node).skip(1) == preorder_of(node, node.children@.len()),
        preorder_of(node, 0).len() == 0,
        i < node.children@.len() ==> preorder_of(node, i + 1) == preorder_of(node, i) + preorder(
            node.children@[i as int],
        ),
{
    assert(preorder(node).skip(1) =~= preorder_of(node, node.children@.len()));
}

/// Depth-first search for the first node that carries geometry.
pub fn find_mesh_node(node: &SceneNode) -> (id: Option<u128>)
    ensures
        id == first_mesh(preorder(*node)),
    decreases node,
{
    proof {
        first_mesh_of_two(seq![*node], preorder_of(*node, node.children@.len()));
        assert(seq![*node].skip(1) =~= Seq::<SceneNode>::empty());
        assert(first_mesh(seq![*node].skip(1)) is None);
    }
    match node.content {
        NodeContent::Mesh => {
            return Some(node.id);
        },
        NodeContent::SkinnedMesh => {
            return Some(node.id);
        },
        NodeContent::ClusterMesh => {
            return Some(node.id);
        },
        _ => {},
    }
    assert(first_mesh(preorder_of(*node, 0)) is None);
    for i in 0..node.children.len()
        invariant
            first_mesh(preorder_of(*node, i as nat)) is None,
            first_mesh(preorder(*node)) == first_mesh(
                preorder_of(*node, node.children@.len()),
            ),
    {
        let found = find_mesh_node(&node.children[i]);
        proof {
            first_mesh_of_two(preorder_of(*node, i as nat), preorder(node.children@[i as int]));
            if found is Some {
                found_stays_found(*node, (i + 1) as nat, node.children@.len());
            }
        }
        if found.is_some() {
            return found;
        }
    }
    None
}

/// What is found among the first children is what is found among all.
proof fn found_stays_found(node: SceneNode, n: nat, m: nat)
    requires
        n <= m <= node.children@.len(),
        first_mesh(preorder_of(node, n)) is Some,
    ensures
        first_mesh(preorder_of(node, m)) == first_mesh(preorder_of(node, n)),
    decreases m,
{
    if n < m {
        found_stays_found(node, n, (m - 1) as nat);
        first_mesh_of_two(preorder_of(node, (m - 1) as nat), preorder(node.children@[m - 1]));
    }
}

/// An extent of a shape and the scale that it is multiplied by (float bits).
#[derive(Clone, Copy, Debug, PartialEq, Eq)]
pub struct Scaled {
    pub extent: u32,
    pub factor: u32,
}

/// A collider's shape with its scale still to be multiplied in.
#[derive(Clone, Copy, Debug, PartialEq, Eq)]
pub enum ShapeFold {
    Cuboid { x: Scaled, y: Scaled, z: Scaled },
    Ball { radius: Scaled },
    Capsule { half_height: Scaled, radius: Scaled },
    Cylinder { half_height: Scaled, radius: Scaled },
    Cone { half_height: Scaled, radius: Scaled },
}

/// The float without its sign.
pub fn float_abs(bits: u32) -> (r: u32)
    ensures
        r == crate::bits::magnitude(bits),
{
    if bits >= crate::bits::SIGN_BIT {
        bits - crate::bits::SIGN_BIT
    } else {
        bits
    }
}

/// What a shape's extents are multiplied by: a box by the scale of each axis, the height of a round
/// shape by that of the Y axis and its radius by the larger of the other two, a sphere by the
/// largest of all. Ellipsoids are left out.
pub open spec fn fold_of(shape: SceneShape, scale: [u32; 3]) -> Option<ShapeFold> {
    let x = crate::bits::magnitude(scale@[0]);
    let y = crate::bits::magnitude(scale@[1]);
    let z = crate::bits::magnitude(scale@[2]);
    let radial = crate::bits::greatest(x, z);
    let largest = crate::bits::greatest(crate::bits::greatest(x, y), z);
    match shape {
        SceneShape::Box { half_extents } => Some(
            ShapeFold::Cuboid {
                x: Scaled { extent: half_extents@[0], factor: x },
                y: Scaled { extent: half_extents@[1], factor: y },
                z: Scaled { extent: half_extents@[2], factor: z },
            },
        ),
        SceneShape::Sphere { radius } => Some(
            ShapeFold::Ball { radius: Scaled { extent: radius, factor: largest } },
        ),
        SceneShape::Capsule { half_height, radius } => Some(
            ShapeFold::Capsule {
                half_height: Scaled { extent: half_height, factor: y },
                radius: Scaled { extent: radius, factor: radial },
            },
        ),
        SceneShape::Cylinder { half_height, radius } => Some(
            ShapeFold::Cylinder {
                half_height: Scaled { extent: half_height, factor: y },
                radius: Scaled { extent: radius, factor: radial },
            },
        ),
        SceneShape::Cone { half_height, radius } => Some(
            ShapeFold::Cone {
                half_height: Scaled { extent: half_height, factor: y },
                radius: Scaled { extent: radius, factor: radial },
            },
        ),
        SceneShape::Ellipsoid => None,
    }
}

/// Folds a node's scale into its collider's shape.
pub fn collider_shape_msg(shape: &SceneShape, scale: [u32; 3]) -> (fold: Option<ShapeFold>)
    ensures
        fold == fold_of(*shape, scale),
        match *shape {
            SceneShape::Box { half_extents } => fold matches Some(ShapeFold::Cuboid { x, y, z }) && {
                &&& x.extent == half_extents@[0]
                &&& x.factor == crate::bits::magnitude(scale@[0])
                &&& y.extent == half_extents@[1]
                &&& y.factor == crate::bits::magnitude(scale@[1])
                &&& z.extent == half_extents@[2]
                &&& z.factor == crate::bits::magnitude(scale@[2])
            },
            SceneShape::Sphere { radius: r } => fold matches Some(ShapeFold::Ball { radius }) && {
                &&& radius.extent == r
                &&& radius.factor == crate::bits::greatest(
                    crate::bits::greatest(
                        crate::bits::magnitude(scale@[0]),
                        crate::bits::magnitude(scale@[1]),
                    ),
                    crate::bits::magnitude(scale@[2]),
                )
            },
            SceneShape::Capsule { half_height: h, radius: r } => fold matches Some(
                ShapeFold::Capsule { half_height, radius },
            ) && upright(half_height, radius, h, r, scale),
            SceneShape::Cylinder { half_height: h, radius: r } => fold matches Some(
                ShapeFold::Cylinder { half_height, radius },
            ) && upright(half_height, radius, h, r, scale),
            SceneShape::Cone { half_height: h, radius: r } => fold matches Some(
                ShapeFold::Cone { half_height, radius },
            ) && upright(half_height, radius, h, r, scale),
            SceneShape::Ellipsoid => fold is None,
        },
{
    let x: u32 = float_abs(scale[0]);
    let y: u32 = float_abs(scale[1]);
    let z: u32 = float_abs(scale[2]);
    let radial: u32 = float_max(x, z);
    match *shape {
        SceneShape::Box { half_extents } => Some(
            ShapeFold::Cuboid {
                x: Scaled { extent: half_extents[0], factor: x },
                y: Scaled { extent: half_extents[1], factor: y },
                z: Scaled { extent: half_extents[2], factor: z },
            },
        ),
        SceneShape::Sphere { radius } => Some(
            ShapeFold::Ball {
                radius: Scaled { extent: radius, factor: float_max(float_max(x, y), z) },
            },
        ),
        SceneShape::Capsule { half_height, radius } => Some(
            ShapeFold::Capsule {
                half_height: Scaled { extent: half_height, factor: y },
                radius: Scaled { extent: radius, factor: radial },
            },
        ),
        SceneShape::Cylinder { half_height, radius } => Some(
            ShapeFold::Cylinder {
                half_height: Scaled { extent: half_height, factor: y },
                radius: Scaled { extent: radius, factor: radial },
            },
        ),
        SceneShape::Cone { half_height, radius } => Some(
            ShapeFold::Cone {
                half_height: Scaled { extent: half_height, factor: y },
                radius: Scaled { extent: radius, factor: radial },
            },
        ),
        SceneShape::Ellipsoid => None,
    }
}

/// A round shape that stands on the Y axis: its height is multiplied by the magnitude of the Y
/// scale, its radius by the larger magnitude of the other two.
pub open spec fn upright(
    half_height: Scaled,
    radius: Scaled,
    h: u32,
    r: u32,
    scale: [u32; 3],
) -> bool {
    &&& half_height.extent == h
    &&& half_height.factor == crate::bits::magnitude(scale@[1])
    &&& radius.extent == r
    &&& radius.factor == crate::bits::greatest(
        crate::bits::magnitude(scale@[0]),
        crate::bits::magnitude(scale@[2]),
    )
}

/// The float is the absolute value of another.
pub open spec fn is_size_of(factor: u32, scale: u32) -> bool {
    &&& crate::bits::is_nan(factor) == crate::bits::is_nan(scale)
    &&& crate::bits::value(factor) >= 0
    &&& crate::bits::value(factor) == crate::bits::value(scale) || crate::bits::value(factor)
        == -crate::bits::value(scale)
}

/// A box is scaled axis by axis: the factor of each extent is the size of the scale of that same
/// axis, whatever the other two are. So two scales that agree on an axis, up to its sign, give that
/// axis the same extent and factor.
pub proof fn box_axes_scale_on_their_own(half_extents: [u32; 3], scale: [u32; 3], other: [u32; 3])
    ensures
        fold_of(SceneShape::Box { half_extents }, scale) matches Some(
            ShapeFold::Cuboid { x, y, z },
        ) && {
            &&& x.extent == half_extents@[0] && is_size_of(x.factor, scale@[0])
            &&& y.extent == half_extents@[1] && is_size_of(y.factor, scale@[1])
            &&& z.extent == half_extents@[2] && is_size_of(z.factor, scale@[2])
            &&& fold_of(SceneShape::Box { half_extents }, other) matches Some(
                ShapeFold::Cuboid { x: ox, y: oy, z: oz },
            ) && {
                &&& scale@[0] == other@[0] || scale@[0] == crate::bits::negated(other@[0]) ==> x
                    == ox
                &&& scale@[1] == other@[1] || scale@[1] == crate::bits::negated(other@[1]) ==> y
                    == oy
                &&& scale@[2] == other@[2] || scale@[2] == crate::bits::negated(other@[2]) ==> z
                    == oz
            }
        },
{
}

/// The factor of a round shape's radius covers the axes across it: it is at least as large as the
/// size of the scale of either and is one of the two; the height goes by the Y axis alone.
pub proof fn round_shapes_scale_by_the_widest(h: u32, r: u32, scale: [u32; 3])
    requires
        !crate::bits::is_nan(scale@[0]),
        !crate::bits::is_nan(scale@[2]),
    ensures
        fold_of(SceneShape::Capsule { half_height: h, radius: r }, scale) matches Some(
            ShapeFold::Capsule { half_height, radius },
        ) && widest_of_two(half_height, radius, h, r, scale),
        fold_of(SceneShape::Cylinder { half_height: h, radius: r }, scale) matches Some(
            ShapeFold::Cylinder { half_height, radius },
        ) && widest_of_two(half_height, radius, h, r, scale),
        fold_of(SceneShape::Cone { half_height: h, radius: r }, scale) matches Some(
            ShapeFold::Cone { half_height, radius },
        ) && widest_of_two(half_height, radius, h, r, scale),
{
}

/// What [`round_shapes_scale_by_the_widest`] says of the height and the radius.
pub open spec fn widest_of_two(
    half_height: Scaled,
    radius: Scaled,
    h: u32,
    r: u32,
    scale: [u32; 3],
) -> bool {
    &&& half_height.extent == h
    &&& is_size_of(half_height.factor, scale@[1])
    &&& radius.extent == r
    &&& is_size_of(radius.factor, scale@[0]) || is_size_of(radius.factor, scale@[2])
    &&& -crate::bits::value(radius.factor) <= crate::bits::value(scale@[0]) <= crate::bits::value(
        radius.factor,
    )
    &&& -crate::bits::value(radius.factor) <= crate::bits::value(scale@[2]) <= crate::bits::value(
        radius.factor,
    )
}

/// A sphere stays a sphere that covers the scaled one: its factor is the size of the scale of one of
/// the axes, and no axis is scaled by more.
pub proof fn sphere_scales_by_the_widest(r: u32, scale: [u32; 3])
    requires
        !crate::bits::is_nan(scale@[0]),
        !crate::bits::is_nan(scale@[1]),
        !crate::bits::is_nan(scale@[2]),
    ensures
        fold_of(SceneShape::Sphere { radius: r }, scale) matches Some(ShapeFold::Ball { radius })
            && {
            &&& radius.extent == r
            &&& is_size_of(radius.factor, scale@[0]) || is_size_of(radius.factor, scale@[1])
                || is_size_of(radius.factor, scale@[2])
            &&& forall|i: int|
                0 <= i < 3 ==> -crate::bits::value(radius.factor) <= crate::bits::value(
                    #[trigger] scale@[i],
                ) <= crate::bits::value(radius.factor)
        },
{
}

/// A collider of the scene, its scale still to be multiplied in.
#[derive(Clone, Copy, Debug, PartialEq, Eq)]
pub struct FoldedCollider {
    pub shape: ShapeFold,
    pub translation: [u32; 3],
    pub rotation: [u32; 4],
    pub dynamic: bool,
    pub role: u8,
}

/// The bits of `1.0`.
pub const UNIT_SCALE: u32 = 0x3f80_0000;

/// The height of the ball's spawn in a scene without a ball collider (bits of `0.6`).
pub const DEFAULT_SPAWN_Y: u32 = 0x3f19_999a;

/// What a walk over the scene has gathered so far.
#[derive(Debug, PartialEq, Eq)]
pub struct Derived {
    pub colliders: Vec<FoldedCollider>,
    pub spawn: [u32; 3],
    pub ball_scale: u32,
}

/// What a walk over the scene has gathered so far, as a value.
#[verifier::ext_equal]
pub struct DerivedView {
    pub colliders: Seq<FoldedCollider>,
    pub spawn: [u32; 3],
    pub ball_scale: u32,
}

impl View for Derived {
    type V = DerivedView;

    open spec fn view(&self) -> DerivedView {
        DerivedView {
            colliders: self.colliders@,
            spawn: self.spawn,
            ball_scale: self.ball_scale,
        }
    }
}

/// The role of a collider: everything under the ball is the ball, what is called a wall is one,
/// and the rest is the floor.
pub open spec fn role_of(name: Seq<char>, in_ball: bool) -> u8 {
    if in_ball {
        ROLE_BALL
    } else if crate::text::occurs(name, "Wall"@) {
        ROLE_WALL
    } else {
        ROLE_FLOOR
    }
}

/// Where a collider lives decides before its name: under the ball it has the ball's role whatever it
/// is called, elsewhere it is a wall exactly when its name has `Wall` in it and floor otherwise.
pub proof fn roles_go_by_place_and_name(name: Seq<char>, in_ball: bool)
    ensures
        role_of(name, in_ball) == 2 <==> in_ball,
        role_of(name, in_ball) == 1 <==> !in_ball && crate::text::occurs(name, "Wall"@),
        role_of(name, in_ball) == 0 <==> !in_ball && !crate::text::occurs(name, "Wall"@),
{
}

/// One of the colliders moves.
pub open spec fn has_mover(colliders: Seq<FoldedCollider>) -> bool {
    exists|j: int| 0 <= j < colliders.len() && (#[trigger] colliders[j]).dynamic
}

/// Whether one of the colliders moves.
fn any_mover(colliders: &Vec<FoldedCollider>) -> (r: bool)
    ensures
        r == has_mover(colliders@),
{
    for i in 0..colliders.len()
        invariant
            forall|j: int| 0 <= j < i ==> !(#[trigger] colliders@[j]).dynamic,
    {
        if colliders[i].dynamic {
            assert(colliders@[i as int].dynamic);
            return true;
        }
    }
    false
}

/// What one node adds to the gathered. The first collider under the ball is the one that moves and
/// that gives the spawn; the others stay where they are.
pub open spec fn visited(
    got: DerivedView,
    node: SceneNode,
    in_ball: bool,
    mesh_id: u128,
) -> DerivedView {
    let place = node.place;
    let first = in_ball && !has_mover(got.colliders);
    DerivedView {
        colliders: match node.content {
            NodeContent::Collider(shape) => match fold_of(shape, place.scale) {
                Some(fold) => got.colliders.push(
                    FoldedCollider {
                        shape: fold,
                        translation: place.translation,
                        rotation: place.rotation,
                        dynamic: first,
                        role: role_of(node.name@, in_ball),
                    },
                ),
                None => got.colliders,
            },
            _ => got.colliders,
        },
        spawn: if first && node.content is Collider {
            place.translation
        } else {
            got.spawn
        },
        ball_scale: if node.id == mesh_id {
            place.scale@[0]
        } else {
            got.ball_scale
        },
    }
}

/// A visit adds at most one collider, behind those that are there, and changes none of them: one of
/// a shape that physics knows is added where its node stands, with the role of its place and name;
/// an ellipsoid and what is no collider add none. The new collider moves exactly when it is the
/// first under the ball. The spawn follows the ball's colliders until one moves, and the ball's
/// scale is the X scale of the node with the ball's mesh.
pub proof fn visit_adds_its_collider(
    got: DerivedView,
    node: SceneNode,
    in_ball: bool,
    mesh_id: u128,
)
    ensures
        ({
            let after = visited(got, node, in_ball, mesh_id);
            let n = got.colliders.len() as int;
            &&& forall|i: int|
                0 <= i < n ==> i < after.colliders.len() && #[trigger] after.colliders[i]
                    == got.colliders[i]
            &&& is_collider(node) ==> {
                &&& after.colliders.len() == n + 1
                &&& after.colliders[n].translation == node.place.translation
                &&& after.colliders[n].rotation == node.place.rotation
                &&& after.colliders[n].role == role_of(node.name@, in_ball)
                &&& Some(after.colliders[n].shape) == fold_of(
                    node.content->Collider_0,
                    node.place.scale,
                )
                &&& after.colliders[n].dynamic <==> in_ball && forall|j: int|
                    0 <= j < n ==> !(#[trigger] got.colliders[j]).dynamic
            }
            &&& !is_collider(node) ==> after.colliders == got.colliders
            &&& node.content is Collider && in_ball && (forall|j: int|
                0 <= j < n ==> !(#[trigger] got.colliders[j]).dynamic) ==> after.spawn
                == node.place.translation
            &&& !(node.content is Collider) || !in_ball || (exists|j: int|
                0 <= j < n && (#[trigger] got.colliders[j]).dynamic) ==> after.spawn == got.spawn
            &&& node.id == mesh_id ==> after.ball_scale == node.place.scale@[0]
            &&& node.id != mesh_id ==> after.ball_scale == got.ball_scale
        }),
{
    let after = visited(got, node, in_ball, mesh_id);
    assert(is_collider(node) ==> fold_of(node.content->Collider_0, node.place.scale) is Some);
    assert(!is_collider(node) ==> after.colliders == got.colliders);
}

/// What several nodes add to the gathered, one after the other.
pub open spec fn visited_all(
    got: DerivedView,
    nodes: Seq<SceneNode>,
    in_ball: bool,
    mesh_id: u128,
) -> DerivedView
    decreases nodes.len(),
{
    if nodes.len() == 0 {
        got
    } else {
        visited(
            visited_all(got, nodes.drop_last(), in_ball, mesh_id),
            nodes.last(),
            in_ball,
            mesh_id,
        )
    }
}

/// Visiting two lists is visiting the first and then the second.
proof fn visited_two(
    got: DerivedView,
    a: Seq<SceneNode>,
    b: Seq<SceneNode>,
    in_ball: bool,
    mesh_id: u128,
)
    ensures
        visited_all(got, a + b, in_ball, mesh_id) == visited_all(
            visited_all(got, a, in_ball, mesh_id),
            b,
            in_ball,
            mesh_id,
        ),
    decreases b.len(),
{
    if b.len() == 0 {
        assert(a + b =~= a);
    } else {
        assert((a + b).drop_last() =~= a + b.drop_last());
        visited_two(got, a, b.drop_last(), in_ball, mesh_id);
    }
}

/// What the first `n` trees of the scene add to an empty walk.
pub open spec fn derived_from(nodes: Seq<SceneNode>, mesh_id: u128, n: nat) -> DerivedView
    decreases n,
{
    if n == 0 || n > nodes.len() {
        DerivedView {
            colliders: Seq::empty(),
            spawn: [0u32, DEFAULT_SPAWN_Y, 0],
            ball_scale: UNIT_SCALE,
        }
    } else {
        let top = nodes[n - 1];
        visited_all(
            derived_from(nodes, mesh_id, (n - 1) as nat),
            preorder(top),
            top.name@ == "Ball"@,
            mesh_id,
        )
    }
}

/// The scene is gathered tree by tree, in order: each top node is visited with all its subtree, as
/// the ball's exactly when its own name is `Ball`, whatever the names below it are. Before the first
/// one nothing is gathered, the ball spawns above the middle of the table at `0.6` and is not scaled.
pub proof fn trees_are_gathered_in_order(
    nodes: Seq<SceneNode>,
    top: SceneNode,
    mesh_id: u128,
    next: SceneNode,
    walk: Seq<SceneNode>,
    got: DerivedView,
    in_ball: bool,
)
    ensures
        ({
            let none = derived_from(Seq::empty(), mesh_id, 0);
            &&& none.colliders.len() == 0
            &&& none.spawn@ == seq![0u32, 0x3f19_999au32, 0u32]
            &&& none.ball_scale == 0x3f80_0000u32
        }),
        derived_from(nodes.push(top), mesh_id, nodes.len() + 1) == visited_all(
            derived_from(nodes, mesh_id, nodes.len()),
            preorder(top),
            top.name@ == "Ball"@,
            mesh_id,
        ),
        visited_all(got, Seq::empty(), in_ball, mesh_id) == got,
        visited_all(got, walk.push(next), in_ball, mesh_id) == visited(
            visited_all(got, walk, in_ball, mesh_id),
            next,
            in_ball,
            mesh_id,
        ),
{
    assert(derived_from(Seq::empty(), mesh_id, 0).spawn@ =~= seq![0u32, 0x3f19_999au32, 0u32]);
    assert(walk.push(next).drop_last() =~= walk);
    first_trees_stay(nodes, top, mesh_id, nodes.len());
}

/// What the first trees add does not depend on the trees behind them.
proof fn first_trees_stay(nodes: Seq<SceneNode>, top: SceneNode, mesh_id: u128, n: nat)
    requires
        n <= nodes.len(),
    ensures
        derived_from(nodes.push(top), mesh_id, n) == derived_from(nodes, mesh_id, n),
    decreases n,
{
    if n > 0 {
        first_trees_stay(nodes, top, mesh_id, (n - 1) as nat);
        assert(nodes.push(top)[n - 1] == nodes[n - 1]);
    }
}

/// Takes one node and everything below it into the gathered.
pub fn walk_node(node: &SceneNode, in_ball: bool, ball_mesh_id: u128, got: &mut Derived)
    ensures
        final(got)@ == visited_all(old(got)@, preorder(*node), in_ball, ball_mesh_id),
    decreases node,
{
    let ghost start = got@;
    if node.id == ball_mesh_id {
        got.ball_scale = node.place.scale[0];
    }
    if let NodeContent::Collider(shape) = &node.content {
        let role: u8 = if in_ball {
            ROLE_BALL
        } else if crate::text::contains(node.name.as_str(), "Wall") {
            ROLE_WALL
        } else {
            ROLE_FLOOR
        };
        let first: bool = in_ball && !any_mover(&got.colliders);
        if first {
            got.spawn = node.place.translation;
        }
        if let Some(fold) = collider_shape_msg(shape, node.place.scale) {
            got.colliders.push(
                FoldedCollider {
                    shape: fold,
                    translation: node.place.translation,
                    rotation: node.place.rotation,
                    dynamic: first,
                    role,
                },
            );
        }
    }
    let ghost own = got@;
    proof {
        assert(own =~= visited(start, *node, in_ball, ball_mesh_id));
        assert(seq![*node].drop_last() =~= Seq::<SceneNode>::empty());
        assert(visited_all(start, seq![*node].drop_last(), in_ball, ball_mesh_id) == start);
        assert(own == visited_all(start, seq![*node], in_ball, ball_mesh_id));
        assert(visited_all(own, preorder_of(*node, 0), in_ball, ball_mesh_id) == own);
    }
    for i in 0..node.children.len()
        invariant
            got@ == visited_all(own, preorder_of(*node, i as nat), in_ball, ball_mesh_id),
    {
        walk_node(&node.children[i], in_ball, ball_mesh_id, got);
        proof {
            visited_two(
                own,
                preorder_of(*node, i as nat),
                preorder(node.children@[i as int]),
                in_ball,
                ball_mesh_id,
            );
        }
    }
    proof {
        visited_two(
            start,
            seq![*node],
            preorder_of(*node, node.children@.len()),
            in_ball,
            ball_mesh_id,
        );
    }
}

/// Pulls out of the scene what physics needs: every collider, the ball's spawn and the scale of
/// its mesh. A collider belongs to the ball when it lives under a top node named `Ball`; the first
/// of these is the one that moves.
pub fn derive_physics(nodes: &Vec<SceneNode>, ball_mesh_id: u128) -> (got: Derived)
    ensures
        got@ == derived_from(nodes@, ball_mesh_id, nodes@.len()),
        one_ball(got@),
        has_mover(got@.colliders) <==> has_ball(nodes@, nodes@.len() as int),
{
    proof {
        only_the_ball_moves(nodes@, ball_mesh_id);
    }
    let mut got = Derived {
        colliders: Vec::new(),
        spawn: [0, DEFAULT_SPAWN_Y, 0],
        ball_scale: UNIT_SCALE,
    };
    assert(got@ =~= derived_from(nodes@, ball_mesh_id, 0));
    for i in 0..nodes.len()
        invariant
            got@ == derived_from(nodes@, ball_mesh_id, i as nat),
    {
        let in_ball: bool = crate::text::same(nodes[i].name.as_str(), "Ball");
        walk_node(&nodes[i], in_ball, ball_mesh_id, &mut got);
    }
    got
}

/// The mesh node that shows the ball: the first one with geometry under the first top node named
/// `Ball`.
pub fn ball_mesh_node(nodes: &Vec<SceneNode>) -> (id: Result<u128, &'static str>)
    ensures
        match id {
            Ok(id) => exists|i: int|
                #[trigger] first_ball(nodes@, i) && first_mesh(preorder(nodes@[i])) == Some(id),
            Err(e) => {
                ||| e@ == "scene has no node named 'Ball'"@ && no_ball(nodes@, nodes@.len() as int)
                ||| e@ == "'Ball' has no renderable mesh node to drive"@ && exists|i: int|
                    #[trigger] first_ball(nodes@, i) && first_mesh(preorder(nodes@[i])) is None
            },
        },
{
    for i in 0..nodes.len()
        invariant
            no_ball(nodes@, i as int),
    {
        if crate::text::same(nodes[i].name.as_str(), "Ball") {
            assert(first_ball(nodes@, i as int));
            return match find_mesh_node(&nodes[i]) {
                Some(id) => Ok(id),
                None => Err("'Ball' has no renderable mesh node to drive"),
            };
        }
    }
    Err("scene has no node named 'Ball'")
}

/// None of the first `n` nodes is named `Ball`.
pub open spec fn no_ball(nodes: Seq<SceneNode>, n: int) -> bool {
    forall|j: int| 0 <= j < n ==> (#[trigger] nodes[j]).name@ != "Ball"@
}

/// The node at `i` is the first one named `Ball`.
pub open spec fn first_ball(nodes: Seq<SceneNode>, i: int) -> bool {
    &&& 0 <= i < nodes.len()
    &&& nodes[i].name@ == "Ball"@
    &&& no_ball(nodes, i)
}

/// The box of the tabletop: half extents and translation of the first static floor cuboid.
pub open spec fn is_floor_box(c: ColliderInit) -> bool {
    !c.dynamic && c.role == ROLE_FLOOR && c.shape is Cuboid
}

/// The tabletop's box: `(half_extents, translation)`, the zone that clicks drop into.
pub fn floor_box(colliders: &Vec<ColliderInit>) -> (floor: Option<([u32; 3], [u32; 3])>)
    ensures
        match floor {
            Some((half_extents, translation)) => exists|i: int|
                #![trigger colliders@[i]]
                0 <= i < colliders@.len() && is_floor_box(colliders@[i]) && colliders@[i].shape
                    == (ColliderShapeMsg::Cuboid { half_extents }) && colliders@[i].translation
                    == translation && forall|j: int|
                    0 <= j < i ==> !is_floor_box(#[trigger] colliders@[j]),
            None => forall|j: int|
                0 <= j < colliders@.len() ==> !is_floor_box(#[trigger] colliders@[j]),
        },
        floor is None <==> forall|j: int|
            0 <= j < colliders@.len() ==> (#[trigger] colliders@[j]).dynamic || colliders@[j].role
                != 0 || !(colliders@[j].shape is Cuboid),
{
    for i in 0..colliders.len()
        invariant
            forall|j: int| 0 <= j < i ==> !is_floor_box(#[trigger] colliders@[j]),
    {
        let c: ColliderInit = colliders[i];
        if !c.dynamic && c.role == ROLE_FLOOR {
            if let ColliderShapeMsg::Cuboid { half_extents } = c.shape {
                assert(is_floor_box(colliders@[i as int]));
                return Some((half_extents, c.translation));
            }
        }
    }
    None
}

/// The colliders and the spawn fit together: at most one collider moves, it has the ball's role,
/// and the spawn is its translation.
pub open spec fn one_ball(got: DerivedView) -> bool {
    &&& forall|i: int, j: int|
        0 <= i < got.colliders.len() && 0 <= j < got.colliders.len() && (
        #[trigger] got.colliders[i]).dynamic && (#[trigger] got.colliders[j]).dynamic ==> i == j
    &&& forall|i: int|
        0 <= i < got.colliders.len() && (#[trigger] got.colliders[i]).dynamic
            ==> got.colliders[i].role == ROLE_BALL && got.colliders[i].translation == got.spawn
}

/// The node is a collider of a shape that physics knows.
pub open spec fn is_collider(node: SceneNode) -> bool {
    node.content matches NodeContent::Collider(shape) && !(shape is Ellipsoid)
}

/// Among the nodes is a collider of a shape that physics knows.
pub open spec fn has_collider(nodes: Seq<SceneNode>) -> bool {
    exists|k: int| 0 <= k < nodes.len() && is_collider(#[trigger] nodes[k])
}

/// One of the first `n` trees is a ball with a collider.
pub open spec fn has_ball(nodes: Seq<SceneNode>, n: int) -> bool {
    exists|i: int|
        0 <= i < n && (#[trigger] nodes[i]).name@ == "Ball"@ && has_collider(preorder(nodes[i]))
}

/// The ball is the only thing that moves: when the scene has a collider under a ball, exactly one
/// of all the colliders is dynamic, it has the ball's role, and the spawn is its translation. In a
/// scene without one nothing is dynamic.
pub proof fn only_the_ball_moves(nodes: Seq<SceneNode>, mesh_id: u128)
    ensures
        one_ball(derived_from(nodes, mesh_id, nodes.len())),
        has_mover(derived_from(nodes, mesh_id, nodes.len()).colliders) <==> has_ball(
            nodes,
            nodes.len() as int,
        ),
{
    first_trees_have_one_ball(nodes, mesh_id, nodes.len());
}

/// The statement of [`only_the_ball_moves`] for the first trees of a scene.
proof fn first_trees_have_one_ball(nodes: Seq<SceneNode>, mesh_id: u128, n: nat)
    requires
        n <= nodes.len(),
    ensures
        one_ball(derived_from(nodes, mesh_id, n)),
        has_mover(derived_from(nodes, mesh_id, n).colliders) <==> has_ball(nodes, n as int),
    decreases n,
{
    if n > 0 {
        let m = (n - 1) as nat;
        first_trees_have_one_ball(nodes, mesh_id, m);
        let top = nodes[n - 1];
        let in_ball = top.name@ == "Ball"@;
        walk_keeps_one_ball(derived_from(nodes, mesh_id, m), preorder(top), in_ball, mesh_id);
        if has_ball(nodes, m as int) {
            let i = choose|i: int|
                0 <= i < m && (#[trigger] nodes[i]).name@ == "Ball"@ && has_collider(
                    preorder(nodes[i]),
                );
            assert(nodes[i].name@ == "Ball"@);
        }
        if in_ball && has_collider(preorder(top)) {
            assert(nodes[n - 1].name@ == "Ball"@);
        }
    }
}

/// Visiting nodes makes something move exactly when something moved before or a collider of the
/// ball is among them, and never lets a second thing move.
proof fn walk_keeps_one_ball(
    got: DerivedView,
    nodes: Seq<SceneNode>,
    in_ball: bool,
    mesh_id: u128,
)
    requires
        one_ball(got),
    ensures
        one_ball(visited_all(got, nodes, in_ball, mesh_id)),
        has_mover(visited_all(got, nodes, in_ball, mesh_id).colliders) <==> has_mover(
            got.colliders,
        ) || in_ball && has_collider(nodes),
    decreases nodes.len(),
{
    if nodes.len() > 0 {
        let rest = nodes.drop_last();
        let last = nodes.last();
        walk_keeps_one_ball(got, rest, in_ball, mesh_id);
        let before = visited_all(got, rest, in_ball, mesh_id);
        let after = visited_all(got, nodes, in_ball, mesh_id);
        visit_keeps_one_ball(before, last, in_ball, mesh_id);
        if has_collider(rest) {
            let k = choose|k: int| 0 <= k < rest.len() && is_collider(#[trigger] rest[k]);
            assert(is_collider(nodes[k]));
        }
        if is_collider(last) {
            assert(is_collider(nodes[nodes.len() - 1]));
        }
        if has_collider(nodes) && !is_collider(last) {
            let k = choose|k: int| 0 <= k < nodes.len() && is_collider(#[trigger] nodes[k]);
            assert(is_collider(rest[k]));
        }
        assert(after == visited(before, last, in_ball, mesh_id));
    }
}

/// One visit: see [`walk_keeps_one_ball`].
proof fn visit_keeps_one_ball(got: DerivedView, node: SceneNode, in_ball: bool, mesh_id: u128)
    requires
        one_ball(got),
    ensures
        one_ball(visited(got, node, in_ball, mesh_id)),
        has_mover(visited(got, node, in_ball, mesh_id).colliders) <==> has_mover(got.colliders)
            || in_ball && is_collider(node),
{
    let after = visited(got, node, in_ball, mesh_id);
    let n = got.colliders.len() as int;
    assert(forall|j: int| 0 <= j < n ==> after.colliders[j] == #[trigger] got.colliders[j]);
    if has_mover(got.colliders) {
        let j = choose|j: int| 0 <= j < n && (#[trigger] got.colliders[j]).dynamic;
        assert(after.colliders[j].dynamic);
    } else if in_ball && is_collider(node) {
        assert(after.colliders[n].dynamic);
    }
}

/// Scaling a box along one axis changes that axis alone: two nodes whose scales differ only along X
/// give their boxes the same Y and Z, and the sign of a scale makes no difference.
pub proof fn scaling_one_axis_changes_one_axis(
    half_extents: [u32; 3],
    scale: [u32; 3],
    other: [u32; 3],
    a: Option<ShapeFold>,
    b: Option<ShapeFold>,
)
    requires
        call_ensures(collider_shape_msg, (&SceneShape::Box { half_extents }, scale), a),
        call_ensures(collider_shape_msg, (&SceneShape::Box { half_extents }, other), b),
    ensures
        a matches Some(ShapeFold::Cuboid { x, y, z }) && b matches Some(
            ShapeFold::Cuboid { x: ox, y: oy, z: oz },
        ) && {
            &&& x.extent == half_extents@[0] && y.extent == half_extents@[1] && z.extent
                == half_extents@[2]
            &&& is_size_of(x.factor, scale@[0])
            &&& is_size_of(y.factor, scale@[1])
            &&& is_size_of(z.factor, scale@[2])
            &&& scale@[0] == other@[0] ==> x == ox
            &&& scale@[1] == other@[1] ==> y == oy
            &&& scale@[2] == other@[2] ==> z == oz
        },
{
}

/// Every shape but the ellipsoid is folded, and into the shape of its own kind with its own extents.
pub proof fn shapes_keep_their_kind(shape: SceneShape, scale: [u32; 3], fold: Option<ShapeFold>)
    requires
        call_ensures(collider_shape_msg, (&shape, scale), fold),
    ensures
        fold is None <==> shape is Ellipsoid,
        shape is Box <==> (fold matches Some(f) && f is Cuboid),
        shape matches SceneShape::Sphere { radius: r } ==> (fold matches Some(
            ShapeFold::Ball { radius },
        ) && radius.extent == r),
        shape matches SceneShape::Capsule { half_height: h, radius: r } ==> (fold matches Some(
            ShapeFold::Capsule { half_height, radius },
        ) && half_height.extent == h && radius.extent == r && is_size_of(
            half_height.factor,
            scale@[1],
        )),
        shape matches SceneShape::Cylinder { half_height: h, radius: r } ==> (fold matches Some(
            ShapeFold::Cylinder { half_height, radius },
        ) && half_height.extent == h && radius.extent == r && is_size_of(
            half_height.factor,
            scale@[1],
        )),
        shape matches SceneShape::Cone { half_height: h, radius: r } ==> (fold matches Some(
            ShapeFold::Cone { half_height, radius },
        ) && half_height.extent == h && radius.extent == r && is_size_of(
            half_height.factor,
            scale@[1],
        )),
{
}

/// The mesh that shows the ball is the first with geometry under the first top node named `Ball`;
/// without such a node, or with no geometry under it, there is none and the report says which.
pub proof fn ball_mesh_is_under_the_first_ball(
    nodes: Vec<SceneNode>,
    i: int,
    r: Result<u128, &'static str>,
)
    requires
        call_ensures(ball_mesh_node, (&nodes,), r),
        0 <= i < nodes@.len(),
        nodes@[i].name@ == "Ball"@,
        forall|j: int| 0 <= j < i ==> (#[trigger] nodes@[j]).name@ != "Ball"@,
    ensures
        r is Ok <==> first_mesh(preorder(nodes@[i])) is Some,
        r matches Ok(id) ==> first_mesh(preorder(nodes@[i])) == Some(id),
{
    assert forall|k: int| #[trigger] first_ball(nodes@, k) implies k == i by {
        if k < i {
            assert(nodes@[k].name@ != "Ball"@);
        } else if i < k {
            assert(nodes@[i].name@ != "Ball"@);
        }
    }
    if no_ball(nodes@, nodes@.len() as int) {
        assert(nodes@[i].name@ != "Ball"@);
    }
}

/// The tabletop is the first collider that stands still, has the floor's role and is a box; clicks
/// drop into its extents, around its place.
pub proof fn tabletop_is_the_first_floor_box(
    colliders: Vec<ColliderInit>,
    i: int,
    half: [u32; 3],
    floor: Option<([u32; 3], [u32; 3])>,
)
    requires
        call_ensures(floor_box, (&colliders,), floor),
        0 <= i < colliders@.len(),
        !colliders@[i].dynamic,
        colliders@[i].role == 0,
        colliders@[i].shape == (ColliderShapeMsg::Cuboid { half_extents: half }),
        forall|j: int|
            0 <= j < i ==> (#[trigger] colliders@[j]).dynamic || colliders@[j].role != 0 || !(
            colliders@[j].shape is Cuboid),
    ensures
        floor == Some((half, colliders@[i].translation)),
{
    assert(is_floor_box(colliders@[i]));
    assert forall|j: int| 0 <= j < i implies !is_floor_box(#[trigger] colliders@[j]) by {
        assert(colliders@[j].dynamic || colliders@[j].role != 0 || !(colliders@[j].shape
            is Cuboid));
    }
}

/// A scale that is no number does not count for a radius as long as another one does: of the two
/// axes across a round shape the other one is taken, and of the three of a sphere the larger of the
/// rest.
pub proof fn what_is_no_number_does_not_scale_a_radius(
    h: u32,
    r: u32,
    scale: [u32; 3],
    round: Option<ShapeFold>,
    sphere: Option<ShapeFold>,
)
    requires
        call_ensures(
            collider_shape_msg,
            (&SceneShape::Capsule { half_height: h, radius: r }, scale),
            round,
        ),
        call_ensures(collider_shape_msg, (&SceneShape::Sphere { radius: r }, scale), sphere),
    ensures
        round matches Some(ShapeFold::Capsule { half_height, radius }) && {
            &&& half_height.factor == crate::bits::magnitude(scale@[1])
            &&& crate::bits::is_nan(scale@[0]) ==> radius.factor == crate::bits::magnitude(scale@[2])
            &&& crate::bits::is_nan(scale@[2]) && !crate::bits::is_nan(scale@[0]) ==> radius.factor
                == crate::bits::magnitude(scale@[0])
        },
        sphere matches Some(ShapeFold::Ball { radius }) && {
            &&& crate::bits::is_nan(scale@[0]) && crate::bits::is_nan(scale@[1]) ==> radius.factor
                == crate::bits::magnitude(scale@[2])
            &&& crate::bits::is_nan(scale@[0]) && crate::bits::is_nan(scale@[2])
                && !crate::bits::is_nan(scale@[1]) ==> radius.factor == crate::bits::magnitude(
                scale@[1],
            )
            &&& crate::bits::is_nan(scale@[1]) && crate::bits::is_nan(scale@[2])
                && !crate::bits::is_nan(scale@[0]) ==> radius.factor == crate::bits::magnitude(
                scale@[0],
            )
            &&& forall|i: int|
                0 <= i < 3 && !crate::bits::is_nan(#[trigger] scale@[i]) ==> !crate::bits::is_nan(
                    radius.factor,
                ) && crate::bits::value(crate::bits::magnitude(scale@[i])) <= crate::bits::value(
                    radius.factor,
                )
        },
{
}

} // verus!
