use block_engine::light::{Light, LightPosition, LightSources, MAX_LIGHT_SOURCES};
use block_engine::world::{Drawable, Entity, EntityHandler, Tile, Triangles, World};
use cgmath::{Point3, Vector3};

type Vertex = [f32; 3];

#[derive(Clone, Debug, PartialEq)]
struct Block {
    position: Point3<i16>,
    color: [f32; 3],
    light: Option<[f32; 4]>,
    stray_index: bool,
}

impl Block {
    fn at(x: i16, y: i16, z: i16) -> Self {
        Block {
            position: Point3::new(x, y, z),
            color: [0.5, 0.5, 0.5],
            light: None,
            stray_index: false,
        }
    }

    fn glowing(x: i16, y: i16, z: i16, light: [f32; 4]) -> Self {
        Block {
            position: Point3::new(x, y, z),
            color: [0.5, 0.5, 0.5],
            light: Some(light),
            stray_index: false,
        }
    }
}

fn quad(center: Point3<f32>) -> Triangles<Vertex> {
    Triangles {
        vertices: vec![
            [center.x - 0.5, center.y - 0.5, center.z],
            [center.x + 0.5, center.y - 0.5, center.z],
            [center.x + 0.5, center.y + 0.5, center.z],
            [center.x - 0.5, center.y + 0.5, center.z],
        ],
        indices: vec![0, 1, 2, 0, 2, 3],
    }
}

impl Drawable for Block {
    type Point = Point3<f32>;
    type Color = [f32; 3];
    type Glow = [f32; 4];
    type Vertex = Vertex;

    fn center(&self) -> Point3<f32> {
        Point3::new(self.position.x as f32, self.position.y as f32, self.position.z as f32)
    }

    fn set_center(&mut self, center: Point3<f32>) {
        self.position = Point3::new(center.x as i16, center.y as i16, center.z as i16);
    }

    fn color(&self) -> [f32; 3] {
        self.color
    }

    fn set_color(&mut self, color: [f32; 3]) {
        self.color = color;
    }

    fn light(&self) -> Option<[f32; 4]> {
        self.light
    }

    fn set_light(&mut self, light: [f32; 4]) {
        self.light = Some(light);
    }

    fn build_object_data(&self) -> Triangles<Vertex> {
        let mut mesh = quad(self.center());
        if self.stray_index {
            mesh.indices[5] = 4;
        }
        mesh
    }
}

impl Tile for Block {
    fn position(&self) -> Point3<i16> {
        self.position
    }

    fn set_position(&mut self, position: Point3<i16>) {
        self.position = position;
    }
}

#[derive(Clone, Debug, PartialEq)]
struct Ball {
    center: Point3<f32>,
    velocity: Vector3<f32>,
    weight: f32,
    color: [f32; 3],
    light: Option<[f32; 4]>,
    stray_index: bool,
}

impl Ball {
    fn at(x: f32, y: f32, z: f32) -> Self {
        Ball {
            center: Point3::new(x, y, z),
            velocity: Vector3::new(0.0, 0.0, 0.0),
            weight: 0.0,
            color: [1.0, 0.0, 0.0],
            light: None,
            stray_index: false,
        }
    }
}

impl Drawable for Ball {
    type Point = Point3<f32>;
    type Color = [f32; 3];
    type Glow = [f32; 4];
    type Vertex = Vertex;

    fn center(&self) -> Point3<f32> {
        self.center
    }

    fn set_center(&mut self, center: Point3<f32>) {
        self.center = center;
    }

    fn color(&self) -> [f32; 3] {
        self.color
    }

    fn set_color(&mut self, color: [f32; 3]) {
        self.color = color;
    }

    fn light(&self) -> Option<[f32; 4]> {
        self.light
    }

    fn set_light(&mut self, light: [f32; 4]) {
        self.light = Some(light);
    }

    fn build_object_data(&self) -> Triangles<Vertex> {
        Triangles {
            vertices: vec![
                [self.center.x, self.center.y, self.center.z],
                [self.center.x + 1.0, self.center.y, self.center.z],
                [self.center.x, self.center.y + 1.0, self.center.z],
            ],
            indices: if self.stray_index { vec![2, 1, 3] } else { vec![2, 1, 0] },
        }
    }
}

impl Entity for Ball {
    type Vector = Vector3<f32>;
    type Scalar = f32;

    fn velocity(&self) -> Vector3<f32> {
        self.velocity
    }

    fn set_velocity(&mut self, velocity: Vector3<f32>) {
        self.velocity = velocity;
    }

    fn weight(&self) -> f32 {
        self.weight
    }

    fn set_weight(&mut self, weight: f32) {
        self.weight = weight;
    }
}

type TestWorld = World<Block, Ball, Vertex, [f32; 4]>;

const RED: [f32; 4] = [1.0, 0.0, 0.0, 1.0];
const GREEN: [f32; 4] = [0.0, 1.0, 0.0, 1.0];
const BLUE: [f32; 4] = [0.0, 0.0, 1.0, 1.0];

fn used(sources: &LightSources<Point3<f32>, [f32; 4]>) -> Vec<(LightPosition<Point3<f32>>, [f32; 4])> {
    let mut out = Vec::new();
    for i in 0..MAX_LIGHT_SOURCES {
        if let Some(light) = sources.get(i) {
            let position = match &light.position {
                LightPosition::Tile(p) => LightPosition::Tile(*p),
                LightPosition::Entity(c) => LightPosition::Entity(*c),
            };
            out.push((position, light.color));
        }
    }
    out
}

fn is_tile_at(position: &LightPosition<Point3<f32>>, x: i16, y: i16, z: i16) -> bool {
    matches!(position, LightPosition::Tile(p) if *p == Point3::new(x, y, z))
}

fn is_entity_at(position: &LightPosition<Point3<f32>>, x: f32, y: f32, z: f32) -> bool {
    matches!(position, LightPosition::Entity(c) if *c == Point3::new(x, y, z))
}

#[test]
fn new_world_is_empty() {
    let world = TestWorld::new();
    assert!(world.is_empty());
    assert!(!world.contains(&Point3::new(0, 0, 0)));
    assert!(world.get_tile(Point3::new(0, 0, 0)).is_none());
    assert_eq!(world.tile_count(), 0);
    assert_eq!(world.entity_count(), 0);
    assert!(TestWorld::default().is_empty());
}

#[test]
fn added_tile_is_found_at_its_coordinate() {
    let mut world = TestWorld::default();
    assert!(world.add_tile(Block::at(1, -2, 3)));
    assert!(!world.is_empty());
    assert_eq!(world.tile_count(), 1);
    assert!(world.contains(&Point3::new(1, -2, 3)));
    assert!(!world.contains(&Point3::new(3, -2, 1)));
    assert!(!world.contains(&Point3::new(1, 2, 3)));
    assert!(!world.contains(&Point3::new(-2, 1, 3)));
    assert_eq!(world.get_tile(Point3::new(1, -2, 3)), Some(&Block::at(1, -2, 3)));
    assert!(world.get_tile(Point3::new(0, 0, 0)).is_none());
}

#[test]
fn coordinates_at_the_ends_of_the_range_are_told_apart() {
    let mut world = TestWorld::new();
    let corners = [
        (i16::MIN, i16::MIN, i16::MIN),
        (i16::MAX, i16::MAX, i16::MAX),
        (i16::MIN, i16::MAX, 0),
        (0, i16::MIN, i16::MAX),
        (-1, -1, -1),
        (0, 0, 0),
    ];
    for (x, y, z) in corners {
        assert!(!world.contains(&Point3::new(x, y, z)));
        assert!(world.add_tile(Block::at(x, y, z)));
    }
    assert_eq!(world.tile_count(), 6);
    for (x, y, z) in corners {
        assert_eq!(world.get_tile(Point3::new(x, y, z)), Some(&Block::at(x, y, z)));
    }
    assert!(!world.contains(&Point3::new(i16::MAX, i16::MIN, 0)));
    assert!(!world.contains(&Point3::new(0, 0, -1)));
    assert!(!world.contains(&Point3::new(0, -1, 0)));
    assert!(!world.contains(&Point3::new(-1, 0, 0)));
}

#[test]
fn tile_at_an_occupied_coordinate_takes_the_place() {
    let mut world = TestWorld::new();
    assert!(world.add_tile(Block::at(0, 0, 0)));
    assert!(world.add_tile(Block::at(5, 5, 5)));
    assert!(world.add_tile(Block::glowing(0, 0, 0, RED)));
    assert_eq!(world.tile_count(), 2);
    assert_eq!(world.get_tile(Point3::new(0, 0, 0)), Some(&Block::glowing(0, 0, 0, RED)));
    assert_eq!(world.get_tile(Point3::new(5, 5, 5)), Some(&Block::at(5, 5, 5)));
    // the mesh of each of the three tiles was cached
    let (mesh, count) = world.build_geometry_buffers().unwrap();
    assert_eq!(mesh.vertices.len(), 12);
    assert_eq!(count, 18);
    // the tile kept the place of the coordinate among the lights
    let (sources, used_count) = world.build_light_sources();
    assert_eq!(used_count, 1);
    assert!(is_tile_at(&used(&sources)[0].0, 0, 0, 0));
}

#[test]
fn tile_with_a_stray_index_is_not_added() {
    let mut world = TestWorld::new();
    assert!(world.add_tile(Block::at(0, 0, 0)));
    let mut bad = Block::at(1, 1, 1);
    bad.stray_index = true;
    assert!(!world.add_tile(bad));
    assert_eq!(world.tile_count(), 1);
    assert!(!world.contains(&Point3::new(1, 1, 1)));
    let (mesh, count) = world.build_geometry_buffers().unwrap();
    assert_eq!(mesh.vertices.len(), 4);
    assert_eq!(count, 6);
}

#[test]
fn place_tile_registers_the_values_it_is_given() {
    let mut world = TestWorld::new();
    let mesh = Triangles { vertices: vec![[0.0; 3], [1.0; 3], [2.0; 3]], indices: vec![0, 2, 1] };
    assert!(mesh.is_self_contained());
    assert!(world.can_admit(&mesh));
    world.place_tile(Block::at(9, 9, 9), Point3::new(1, 2, 3), Some(GREEN), &mesh);
    world.place_tile(Block::at(8, 8, 8), Point3::new(-1, -2, -3), None, &mesh);
    assert!(world.contains(&Point3::new(1, 2, 3)));
    assert!(world.contains(&Point3::new(-1, -2, -3)));
    assert!(!world.contains(&Point3::new(9, 9, 9)));
    assert_eq!(world.get_tile(Point3::new(1, 2, 3)), Some(&Block::at(9, 9, 9)));
    let (merged, count) = world.assemble_geometry(&Vec::new());
    assert_eq!(merged.vertices, vec![[0.0; 3], [1.0; 3], [2.0; 3], [0.0; 3], [1.0; 3], [2.0; 3]]);
    assert_eq!(merged.indices, vec![0, 2, 1, 3, 5, 4]);
    assert_eq!(count, 6);
    let (sources, used_count) = world.build_light_sources();
    assert_eq!(used_count, 1);
    let lights = used(&sources);
    assert!(is_tile_at(&lights[0].0, 1, 2, 3));
    assert_eq!(lights[0].1, GREEN);
}

#[test]
fn mesh_check_finds_stray_indices() {
    let good: Triangles<Vertex> = Triangles { vertices: vec![[0.0; 3]; 3], indices: vec![0, 1, 2, 2] };
    let stray: Triangles<Vertex> = Triangles { vertices: vec![[0.0; 3]; 3], indices: vec![0, 1, 3] };
    let empty: Triangles<Vertex> = Triangles::new();
    let orphan: Triangles<Vertex> = Triangles { vertices: Vec::new(), indices: vec![0] };
    assert!(good.is_self_contained());
    assert!(!stray.is_self_contained());
    assert!(empty.is_self_contained());
    assert!(!orphan.is_self_contained());
    let world = TestWorld::new();
    assert!(world.can_admit(&good));
    assert!(!world.can_admit(&stray));
}

#[test]
fn append_moves_indices_up_by_the_vertices_before() {
    let mut mesh: Triangles<Vertex> = Triangles::new();
    let part = Triangles { vertices: vec![[1.0; 3], [2.0; 3]], indices: vec![1, 0, 1] };
    mesh.append(&part);
    assert_eq!(mesh.indices, vec![1, 0, 1]);
    mesh.append(&part);
    mesh.append(&Triangles { vertices: vec![[3.0; 3]], indices: vec![0] });
    assert_eq!(mesh.indices, vec![1, 0, 1, 3, 2, 3, 4]);
    assert_eq!(mesh.vertices, vec![[1.0; 3], [2.0; 3], [1.0; 3], [2.0; 3], [3.0; 3]]);
    assert!(mesh.is_self_contained());
}

#[test]
fn one_tile_and_no_entity_gives_the_mesh_of_the_tile() {
    let tile = Block::at(2, 0, -1);
    let own = tile.build_object_data();
    let mut world = TestWorld::new();
    assert!(world.add_tile(tile));
    let (mesh, count) = world.build_geometry_buffers().unwrap();
    assert_eq!(count as usize, own.indices.len());
    assert_eq!(count, 6);
    assert_eq!(mesh.indices, own.indices);
    assert_eq!(mesh.vertices, own.vertices);
    assert!(mesh.indices.iter().all(|i| (*i as usize) < mesh.vertices.len()));
}

#[test]
fn geometry_of_tiles_and_entities_is_index_consistent() {
    let mut world = TestWorld::new();
    assert!(world.add_tile(Block::at(0, 0, 0)));
    assert!(world.add_tile(Block::at(1, 0, 0)));
    world.add_entity(Ball::at(0.0, 2.0, 0.0));
    world.add_entity(Ball::at(3.0, 2.0, 0.0));
    let (mesh, count) = world.build_geometry_buffers().unwrap();
    assert_eq!(
        mesh.indices,
        vec![0, 1, 2, 0, 2, 3, 4, 5, 6, 4, 6, 7, 10, 9, 8, 13, 12, 11]
    );
    assert_eq!(count, 18);
    assert_eq!(mesh.vertices.len(), 14);
    assert_eq!(mesh.vertices[4], [0.5, -0.5, 0.0]);
    assert_eq!(mesh.vertices[8], [0.0, 2.0, 0.0]);
    assert_eq!(mesh.vertices[11], [3.0, 2.0, 0.0]);
    assert_eq!(mesh.vertices[13], [3.0, 3.0, 0.0]);
    assert!(mesh.is_self_contained());
}

#[test]
fn geometry_follows_an_entity_that_moved() {
    let mut world = TestWorld::new();
    let handle = world.add_entity(Ball::at(0.0, 0.0, 0.0));
    let (before, _) = world.build_geometry_buffers().unwrap();
    assert_eq!(before.vertices[0], [0.0, 0.0, 0.0]);
    world.entity_mut(handle).set_center(Point3::new(4.0, 5.0, 6.0));
    let (after, count) = world.build_geometry_buffers().unwrap();
    assert_eq!(after.vertices[0], [4.0, 5.0, 6.0]);
    assert_eq!(after.indices, vec![2, 1, 0]);
    assert_eq!(count, 3);
}

#[test]
fn entity_with_a_stray_index_stops_the_assembly() {
    let mut world = TestWorld::new();
    assert!(world.add_tile(Block::at(0, 0, 0)));
    let handle = world.add_entity(Ball::at(0.0, 0.0, 0.0));
    assert!(world.build_geometry_buffers().is_some());
    world.entity_mut(handle).stray_index = true;
    let meshes = world.entity_meshes();
    assert_eq!(meshes.len(), 1);
    assert!(!world.geometry_fits(&meshes));
    assert!(world.build_geometry_buffers().is_none());
    world.entity_mut(handle).stray_index = false;
    assert!(world.geometry_fits(&world.entity_meshes()));
}

#[test]
fn assemble_geometry_merges_given_meshes() {
    let mut world = TestWorld::new();
    assert!(world.add_tile(Block::at(0, 0, 0)));
    let meshes = vec![
        Triangles { vertices: vec![[7.0; 3], [8.0; 3]], indices: vec![1, 1, 0] },
        Triangles { vertices: Vec::new(), indices: Vec::new() },
        Triangles { vertices: vec![[9.0; 3]], indices: vec![0, 0, 0] },
    ];
    assert!(world.geometry_fits(&meshes));
    let (mesh, count) = world.assemble_geometry(&meshes);
    assert_eq!(mesh.indices, vec![0, 1, 2, 0, 2, 3, 5, 5, 4, 6, 6, 6]);
    assert_eq!(count, 12);
    assert_eq!(mesh.vertices.len(), 7);
    assert_eq!(mesh.vertices[4], [7.0; 3]);
    assert_eq!(mesh.vertices[6], [9.0; 3]);
}

#[test]
fn handles_name_entities_in_insertion_order() {
    let mut world = TestWorld::new();
    let first = world.add_entity(Ball::at(1.0, 0.0, 0.0));
    let second = world.add_entity(Ball::at(2.0, 0.0, 0.0));
    assert!(!world.is_empty());
    assert_eq!(world.entity_count(), 2);
    assert_eq!(first.index(), 0);
    assert_eq!(second.index(), 1);
    assert_ne!(first, second);
    assert_eq!(world.entity(first).center(), Point3::new(1.0, 0.0, 0.0));
    assert_eq!(world.entity(second).center(), Point3::new(2.0, 0.0, 0.0));
    assert!(world.has_entity(first) && world.has_entity(second));
    assert!(!TestWorld::new().has_entity(first));
}

#[test]
fn every_copy_of_a_handle_names_the_same_entity() {
    let mut world = TestWorld::new();
    let handle: EntityHandler = world.add_entity(Ball::at(1.0, 1.0, 1.0));
    let alias = handle;
    world.entity_mut(handle).set_velocity(Vector3::new(0.0, 3.0, 0.0));
    assert_eq!(world.entity(alias).velocity(), Vector3::new(0.0, 3.0, 0.0));
    world.entity_mut(alias).set_weight(0.5);
    assert_eq!(world.entity(handle).weight(), 0.5);
    assert_eq!(world.entity_count(), 1);
}

#[test]
fn lights_come_from_tiles_first_and_then_from_entities() {
    let mut world = TestWorld::new();
    let mut glowing = Ball::at(0.5, 1.5, 2.5);
    glowing.set_light(BLUE);
    world.add_entity(Ball::at(9.0, 9.0, 9.0));
    world.add_entity(glowing);
    assert!(world.add_tile(Block::glowing(1, 2, 3, RED)));
    assert!(world.add_tile(Block::at(0, 0, 0)));
    assert!(world.add_tile(Block::glowing(-4, 5, -6, GREEN)));
    let (sources, count) = world.build_light_sources();
    assert_eq!(count, 3);
    let lights = used(&sources);
    assert_eq!(lights.len(), 3);
    assert!(is_tile_at(&lights[0].0, 1, 2, 3));
    assert_eq!(lights[0].1, RED);
    assert!(is_tile_at(&lights[1].0, -4, 5, -6));
    assert_eq!(lights[1].1, GREEN);
    assert!(is_entity_at(&lights[2].0, 0.5, 1.5, 2.5));
    assert_eq!(lights[2].1, BLUE);
    for i in 0..MAX_LIGHT_SOURCES {
        assert_eq!(sources.get(i).is_some(), i < 3);
    }
}

#[test]
fn world_without_lights_uses_no_slot() {
    let mut world = TestWorld::new();
    assert!(world.add_tile(Block::at(0, 0, 0)));
    world.add_entity(Ball::at(0.0, 3.0, 0.0));
    let (sources, count) = world.build_light_sources();
    assert_eq!(count, 0);
    assert!(used(&sources).is_empty());
}

#[test]
fn sixty_fifth_light_is_dropped() {
    let mut world = TestWorld::new();
    for i in 0..64 {
        assert!(world.add_tile(Block::glowing(i, 0, 0, RED)));
    }
    let (sources, count) = world.build_light_sources();
    assert_eq!(count, 64);
    assert_eq!(used(&sources).len(), 64);
    let mut glowing = Ball::at(0.0, 5.0, 0.0);
    glowing.set_light(BLUE);
    world.add_entity(glowing);
    let (sources, count) = world.build_light_sources();
    assert_eq!(count, 64);
    let lights = used(&sources);
    assert_eq!(lights.len(), 64);
    for (i, light) in lights.iter().enumerate() {
        assert!(is_tile_at(&light.0, i as i16, 0, 0));
        assert_eq!(light.1, RED);
    }
}

#[test]
fn lights_beyond_the_capacity_are_cut_off_in_order() {
    let mut world = TestWorld::new();
    for i in 0..60 {
        assert!(world.add_tile(Block::glowing(0, i, 0, GREEN)));
    }
    for i in 0..10 {
        let mut glowing = Ball::at(i as f32, 0.0, 0.0);
        glowing.set_light(BLUE);
        world.add_entity(glowing);
    }
    let (sources, count) = world.build_light_sources();
    assert_eq!(count, 64);
    let lights = used(&sources);
    assert!(is_tile_at(&lights[59].0, 0, 59, 0));
    assert!(is_entity_at(&lights[60].0, 0.0, 0.0, 0.0));
    assert!(is_entity_at(&lights[63].0, 3.0, 0.0, 0.0));
}

#[test]
fn collect_lights_packs_given_lights_behind_those_of_the_tiles() {
    let mut world = TestWorld::new();
    assert!(world.add_tile(Block::glowing(7, 7, 7, RED)));
    let given: Vec<Light<Point3<f32>, [f32; 4]>> = vec![
        Light { position: LightPosition::Entity(Point3::new(1.0, 0.0, 0.0)), color: GREEN },
        Light { position: LightPosition::Entity(Point3::new(2.0, 0.0, 0.0)), color: BLUE },
    ];
    let (sources, count) = world.collect_lights(given);
    assert_eq!(count, 3);
    let lights = used(&sources);
    assert!(is_tile_at(&lights[0].0, 7, 7, 7));
    assert!(is_entity_at(&lights[1].0, 1.0, 0.0, 0.0));
    assert_eq!(lights[1].1, GREEN);
    assert!(is_entity_at(&lights[2].0, 2.0, 0.0, 0.0));
    assert_eq!(lights[2].1, BLUE);
}

#[test]
fn full_buffer_refuses_a_light_and_stays_as_it_is() {
    let mut sources: LightSources<Point3<f32>, [f32; 4]> = LightSources::new();
    assert_eq!(sources.count(), 0);
    assert!(sources.get(0).is_none());
    for i in 0..64 {
        let light = Light { position: LightPosition::Tile(Point3::new(i, i, i)), color: RED };
        assert!(sources.push(light));
        assert_eq!(sources.count(), i as u32 + 1);
    }
    let late = Light { position: LightPosition::Tile(Point3::new(99, 99, 99)), color: BLUE };
    assert!(!sources.push(late));
    assert_eq!(sources.count(), 64);
    let lights = used(&sources);
    assert_eq!(lights.len(), 64);
    assert!(is_tile_at(&lights[63].0, 63, 63, 63));
    assert!(lights.iter().all(|l| l.1 == RED));
}

#[test]
fn light_capacity_is_sixty_four() {
    assert_eq!(MAX_LIGHT_SOURCES, 64);
}

#[test]
fn entity_lights_lists_the_emissive_entities_in_order() {
    let mut world = TestWorld::new();
    assert!(world.add_tile(Block::glowing(0, 0, 0, RED)));
    let mut first = Ball::at(1.0, 2.0, 3.0);
    first.set_light(GREEN);
    let mut third = Ball::at(-1.0, 0.5, 0.0);
    third.set_light(BLUE);
    world.add_entity(first);
    world.add_entity(Ball::at(7.0, 7.0, 7.0));
    let handle = world.add_entity(third);
    let lights = world.entity_lights();
    assert_eq!(lights.len(), 2);
    assert!(is_entity_at(&lights[0].position, 1.0, 2.0, 3.0));
    assert_eq!(lights[0].color, GREEN);
    assert!(is_entity_at(&lights[1].position, -1.0, 0.5, 0.0));
    assert_eq!(lights[1].color, BLUE);
    world.entity_mut(handle).set_center(Point3::new(4.0, 4.0, 4.0));
    let moved = world.entity_lights();
    assert!(is_entity_at(&moved[1].position, 4.0, 4.0, 4.0));
    assert!(TestWorld::new().entity_lights().is_empty());
}
