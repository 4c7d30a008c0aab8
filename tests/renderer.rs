use engine::command::{DrawCommand, MaterialType, MODE_COLOR, MODE_TEXTURE};
use engine::mesh::{quad_indices, MeshID};
use engine::renderer::{BindGroup, DrawCall, Renderer};

type Mat = [[f32; 4]; 4];
type Rgba = [f32; 4];

const IDENTITY: Mat = [
    [1.0, 0.0, 0.0, 0.0],
    [0.0, 1.0, 0.0, 0.0],
    [0.0, 0.0, 1.0, 0.0],
    [0.0, 0.0, 0.0, 1.0],
];

const TEXTURE_COLOR: Rgba = [0.0, 0.0, 0.0, 1.0];

fn translated(x: f32) -> Mat {
    let mut m = IDENTITY;
    m[3][0] = x;
    m
}

fn renderer() -> Renderer<Mat, Rgba, &'static str> {
    Renderer::new(TEXTURE_COLOR, "placeholder")
}

#[test]
fn quad_mesh_is_first_and_has_six_indices() {
    assert_eq!(MeshID::QUAD.id(), 0);
    assert_eq!(quad_indices(), vec![0u16, 1, 2, 2, 3, 0]);
    let r = renderer();
    assert_eq!(r.mesh_count(), 1);
    assert_eq!(r.texture_count(), 0);
    assert!(r.draw_commands().is_empty());
    assert!(r.instances().is_none());
}

#[test]
fn texture_handles_count_up_from_zero() {
    let mut r = renderer();
    assert_eq!(r.load_texture("owl"), 0);
    assert_eq!(r.load_texture("cheetah"), 1);
    assert_eq!(r.texture_count(), 2);
    assert_eq!(*r.texture(0), "owl");
    assert_eq!(*r.texture(1), "cheetah");
}

#[test]
fn glyph_without_outline_gets_no_handle() {
    let mut r = renderer();
    assert_eq!(r.load_char(None), None);
    assert_eq!(r.texture_count(), 0);
    assert_eq!(r.load_char(Some("glyph")), Some(0));
    assert_eq!(*r.texture(0), "glyph");
}

#[test]
fn draw_appends_in_call_order() {
    let mut r = renderer();
    let h = r.load_texture("owl");
    r.draw(0, translated(1.0), [1.0, 0.0, 0.0, 1.0], 3);
    r.draw_texture(0, translated(2.0), h, 1);
    let cmds = r.draw_commands();
    assert_eq!(cmds.len(), 2);
    assert_eq!(cmds[0].z_index, 3);
    assert_eq!(cmds[0].transform, translated(1.0));
    assert!(matches!(cmds[0].material.kind, MaterialType::Color(c) if c == [1.0, 0.0, 0.0, 1.0]));
    assert_eq!(cmds[1].z_index, 1);
    assert!(matches!(cmds[1].material.kind, MaterialType::Texture(0)));
}

#[test]
fn upload_sorts_stably_by_z_index() {
    let mut r = renderer();
    for (i, z) in [2u32, 0, 2, 1].iter().enumerate() {
        r.draw(0, translated(i as f32), [i as f32, 0.0, 0.0, 1.0], *z);
    }
    r.upload_instances();
    let order: Vec<f32> = r.draw_commands().iter().map(|c: &DrawCommand<Mat, Rgba>| c.transform[3][0]).collect();
    assert_eq!(order, vec![1.0, 3.0, 0.0, 2.0]);
    let inst = r.instances().unwrap();
    let inst_order: Vec<f32> = inst.iter().map(|d| d.model[3][0]).collect();
    assert_eq!(inst_order, vec![1.0, 3.0, 0.0, 2.0]);
    let colors: Vec<f32> = inst.iter().map(|d| d.color[0]).collect();
    assert_eq!(colors, vec![1.0, 3.0, 0.0, 2.0]);
}

#[test]
fn instances_carry_mode_and_color() {
    let mut r = renderer();
    let h = r.load_texture("owl");
    r.draw(0, translated(1.0), [0.0, 0.0, 1.0, 0.5], 0);
    r.draw_texture(0, translated(2.0), h, 0);
    r.upload_instances();
    let inst = r.instances().unwrap();
    assert_eq!(inst.len(), 2);
    assert_eq!(inst[0].mode, MODE_COLOR);
    assert_eq!(inst[0].mode, 0);
    assert_eq!(inst[0].color, [0.0, 0.0, 1.0, 0.5]);
    assert_eq!(inst[0].model, translated(1.0));
    assert_eq!(inst[1].mode, MODE_TEXTURE);
    assert_eq!(inst[1].mode, 1);
    assert_eq!(inst[1].color, TEXTURE_COLOR);
    assert_eq!(inst[1].model, translated(2.0));
}

#[test]
fn second_upload_without_draws_is_identical() {
    let mut r = renderer();
    let h = r.load_texture("owl");
    r.draw(0, translated(1.0), [1.0, 1.0, 1.0, 1.0], 5);
    r.draw_texture(0, translated(2.0), h, 2);
    r.draw(0, translated(3.0), [0.5, 0.5, 0.5, 1.0], 2);
    r.upload_instances();
    let first: Vec<(Mat, Rgba, u32)> = r.instances().unwrap().iter().map(|d| (d.model, d.color, d.mode)).collect();
    r.upload_instances();
    let second: Vec<(Mat, Rgba, u32)> = r.instances().unwrap().iter().map(|d| (d.model, d.color, d.mode)).collect();
    assert_eq!(first, second);
    assert_eq!(first.len(), 3);
    assert_eq!(first[0].0, translated(2.0));
    assert_eq!(first[1].0, translated(3.0));
    assert_eq!(first[2].0, translated(1.0));
}

#[test]
fn empty_frame_uploads_nothing_and_draws_nothing() {
    let mut r = renderer();
    r.load_texture("owl");
    r.draw(0, IDENTITY, [1.0, 1.0, 1.0, 1.0], 0);
    r.upload_instances();
    assert!(r.instances().is_some());
    r.clear_draw_commands();
    r.upload_instances();
    assert!(r.instances().is_none());
    assert!(r.is_pass_ready());
    assert!(r.begin_pass().is_empty());
}

#[test]
fn pass_before_any_upload_draws_nothing() {
    let mut r = renderer();
    r.load_texture("owl");
    r.draw(0, IDENTITY, [1.0, 1.0, 1.0, 1.0], 0);
    assert!(r.is_pass_ready());
    assert!(r.begin_pass().is_empty());
}

#[test]
fn loaded_texture_is_bound_for_its_draw() {
    let mut r = renderer();
    r.load_texture("white");
    let h = r.load_texture("owl");
    r.draw(0, IDENTITY, [1.0, 1.0, 1.0, 1.0], 1);
    r.draw_texture(0, IDENTITY, h, 0);
    r.upload_instances();
    let calls = r.begin_pass();
    assert_eq!(calls.len(), 2);
    assert_eq!(calls[0].bind_group, BindGroup::Texture(h));
    assert_eq!(*r.bind_group(calls[0].bind_group), "owl");
    assert_eq!(*r.texture(h), "owl");
    assert_eq!((calls[0].instance_start, calls[0].instance_end), (0, 1));
    assert_eq!(calls[1].bind_group, BindGroup::Placeholder);
    assert_eq!(*r.bind_group(calls[1].bind_group), "placeholder");
    assert_eq!((calls[1].instance_start, calls[1].instance_end), (1, 2));
}

#[test]
fn one_textured_quad_gives_one_draw_call() {
    let mut r: Renderer<Mat, Rgba, engine::texture::TextureData> =
        Renderer::new(TEXTURE_COLOR, engine::texture::TextureData::white());
    let mut bitmap = engine::text::AlphaBitmap::new(2, 2);
    bitmap.plot(0, 0, 255);
    let data = engine::texture::TextureData::from_alpha_bitmap(&bitmap).unwrap();
    let handle = r.load_texture(data);
    r.draw_texture(MeshID::QUAD.id(), IDENTITY, handle, 0);
    r.upload_instances();
    assert!(r.is_pass_ready());
    let calls = r.begin_pass();
    assert_eq!(
        calls,
        vec![DrawCall {
            mesh_id: 0,
            index_count: 6,
            bind_group: BindGroup::Texture(handle),
            instance_start: 0,
            instance_end: 1
        }]
    );
    assert_eq!(r.texture(handle).width, 2);
    assert_eq!(r.texture(handle).height, 2);
}

#[test]
fn pass_needs_known_meshes() {
    let mut r = renderer();
    r.draw(0, IDENTITY, [1.0, 1.0, 1.0, 1.0], 0);
    assert!(r.is_pass_ready());
    r.draw(1, IDENTITY, [1.0, 1.0, 1.0, 1.0], 0);
    assert!(!r.is_pass_ready());
}

#[test]
fn color_draw_binds_placeholder_without_any_texture() {
    let mut r = renderer();
    r.draw(0, IDENTITY, [0.0, 1.0, 0.0, 1.0], 0);
    r.upload_instances();
    assert!(r.is_pass_ready());
    let calls = r.begin_pass();
    assert_eq!(
        calls,
        vec![DrawCall {
            mesh_id: 0,
            index_count: 6,
            bind_group: BindGroup::Placeholder,
            instance_start: 0,
            instance_end: 1
        }]
    );
    assert_eq!(*r.bind_group(BindGroup::Placeholder), "placeholder");
    assert_eq!(r.texture_count(), 0);
}

#[test]
fn clearing_ends_the_frame_but_keeps_textures() {
    let mut r = renderer();
    let h = r.load_texture("owl");
    r.draw_texture(0, IDENTITY, h, 0);
    r.clear_draw_commands();
    assert!(r.draw_commands().is_empty());
    assert_eq!(r.texture_count(), 1);
}
