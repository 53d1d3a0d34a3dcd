use kule::geometry::GlyphGeometry;
use kule::path::{vectorize, PathCommand};
use kule::raster::Coverage;
use lyon_tessellation::geometry_builder::simple_builder;
use lyon_tessellation::math::{point, Point};
use lyon_tessellation::path::Path;
use lyon_tessellation::{FillOptions, FillTessellator, VertexBuffers};

fn bitmap(rows: &[&str]) -> Coverage {
    let height = rows.len();
    let width = rows[0].len();
    let mut bytes = Vec::new();
    for row in rows {
        for c in row.chars() {
            bytes.push(if c == '#' { 255u8 } else { 0u8 });
        }
    }
    Coverage::new(width, height, bytes).unwrap()
}

fn fill(commands: &[PathCommand]) -> GlyphGeometry<[f32; 2]> {
    let mut builder = Path::builder();
    for command in commands {
        match *command {
            PathCommand::MoveTo((x, y)) => {
                builder.begin(point(x as f32, y as f32));
            }
            PathCommand::LineTo((x, y)) => {
                builder.line_to(point(x as f32, y as f32));
            }
            PathCommand::Close => builder.end(true),
        }
    }
    let path = builder.build();
    let mut buffers: VertexBuffers<Point, u16> = VertexBuffers::new();
    let mut vertex_builder = simple_builder(&mut buffers);
    let mut tessellator = FillTessellator::new();
    tessellator.tessellate_path(&path, &FillOptions::default(), &mut vertex_builder).unwrap();
    let vertices: Vec<[f32; 2]> = buffers.vertices.into_iter().map(|v| [v.x, v.y]).collect();
    GlyphGeometry::new(vertices, buffers.indices).unwrap()
}

fn side(a: [f32; 2], b: [f32; 2], p: [f32; 2]) -> f32 {
    (b[0] - a[0]) * (p[1] - a[1]) - (b[1] - a[1]) * (p[0] - a[0])
}

fn covers(g: &GlyphGeometry<[f32; 2]>, p: [f32; 2]) -> bool {
    let mut inside = false;
    for t in 0..g.triangle_count() {
        let a = g.vertices[g.indices[3 * t] as usize];
        let b = g.vertices[g.indices[3 * t + 1] as usize];
        let c = g.vertices[g.indices[3 * t + 2] as usize];
        let (d1, d2, d3) = (side(a, b, p), side(b, c, p), side(c, a, p));
        let negative = d1 < 0.0 || d2 < 0.0 || d3 < 0.0;
        let positive = d1 > 0.0 || d2 > 0.0 || d3 > 0.0;
        if !(negative && positive) {
            inside = true;
        }
    }
    inside
}

#[test]
fn whitespace_fills_nothing() {
    let space = Coverage::new(0, 0, Vec::new()).unwrap();
    let g = fill(&vectorize(&space));
    assert_eq!(g.vertices.len(), 0);
    assert_eq!(g.indices.len(), 0);
    let blank = bitmap(&["....."; 4]);
    let g = fill(&vectorize(&blank));
    assert_eq!(g.vertices.len(), 0);
    assert_eq!(g.indices.len(), 0);
}

#[test]
fn single_pixel_contour_fills_nothing() {
    let b = bitmap(&["..##", "##.#", "#.##"]);
    let g = fill(&vectorize(&b));
    assert_eq!(g.triangle_count(), 0);
}

#[test]
fn solid_square_is_filled() {
    let b = bitmap(&["#####"; 5]);
    let g = fill(&vectorize(&b));
    assert!(g.triangle_count() > 0);
    assert!(covers(&g, [2.1, 2.2]));
    assert!(covers(&g, [0.6, 2.2]));
    assert!(!covers(&g, [5.1, 2.2]));
    assert!(!covers(&g, [0.1, 0.2]));
}

#[test]
fn fill_leaves_the_hole_of_a_ring_open() {
    let b = bitmap(&[
        "#########",
        "#########",
        "#########",
        "###...###",
        "###...###",
        "###...###",
        "#########",
        "#########",
        "#########",
    ]);
    let g = fill(&vectorize(&b));
    assert!(g.triangle_count() > 0);
    assert!(!covers(&g, [4.1, 4.2]));
    assert!(!covers(&g, [3.1, 3.2]));
    assert!(covers(&g, [1.1, 4.2]));
    assert!(covers(&g, [4.1, 1.2]));
    assert!(covers(&g, [7.1, 4.2]));
    assert!(covers(&g, [4.1, 7.2]));
    assert!(!covers(&g, [9.1, 4.2]));
}
