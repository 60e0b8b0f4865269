use tech_tree::model::technology::Input;
use tech_tree::rendering::renderer::Renderer;
use tech_tree::rendering::tree::TreeRenderer;
use tech_tree::svg_builder::SvgBuilder;
use tech_tree::usecase::creation::create_tree;

#[test]
fn test_get_size_of_technology() {
    let builder = SvgBuilder::new(10, 20);

    assert_eq!(builder.get_size_of_technology("test"), (60, 20));
    assert_eq!(builder.get_size_of_technology("another"), (75, 20));
}

#[test]
fn test_export() {
    let mut builder = SvgBuilder::new(10, 10);

    builder.init(100, 150);
    builder.render_technology("Tech 1", 50, 20);
    builder.render_technology("Tech 2", 50, 70);
    builder.render_link(vec![(50, 30), (50, 60)]);

    let result = "<svg viewBox=\"0 0 100 150\" xmlns=\"http://www.w3.org/2000/svg\">
<defs>
<marker id=\"head\" orient=\"auto\" refX=\"1\" refY=\"7\" viewBox=\"0 0 10 10\">
<path d=\"M0,0 L10,7 L0,14 z\" fill=\"black\"/>
</marker>
</defs>
<rect fill=\"#4fc3ff\" height=\"20\" stroke=\"black\" stroke-width=\"1\" width=\"50\" x=\"25\" y=\"10\"/>
<text font-size=\"10\" text-anchor=\"middle\" x=\"50\" y=\"23\">
Tech 1
</text>
<rect fill=\"#4fc3ff\" height=\"20\" stroke=\"black\" stroke-width=\"1\" width=\"50\" x=\"25\" y=\"60\"/>
<text font-size=\"10\" text-anchor=\"middle\" x=\"50\" y=\"73\">
Tech 2
</text>
<path d=\"M50,30 L50,60\" fill=\"none\" marker-end=\"url(#head)\" stroke=\"black\" stroke-width=\"1\"/>
</svg>";

    assert_eq!(builder.export_as_string(), result.to_string());
}

#[test]
fn test_export_of_nothing() {
    let result = "<svg xmlns=\"http://www.w3.org/2000/svg\">
<defs>
<marker id=\"head\" orient=\"auto\" refX=\"1\" refY=\"7\" viewBox=\"0 0 10 10\">
<path d=\"M0,0 L10,7 L0,14 z\" fill=\"black\"/>
</marker>
</defs>
</svg>";

    assert_eq!(SvgBuilder::new(10, 10).export_as_string(), result.to_string());
}

#[test]
fn test_size_counts_bytes() {
    let builder = SvgBuilder::new(7, 1);

    assert_eq!(builder.get_size_of_technology(""), (2, 14));
    assert_eq!(builder.get_size_of_technology("é"), (8, 14));
}

#[test]
fn test_size_is_clipped() {
    assert_eq!(
        SvgBuilder::new(u32::MAX, 0).get_size_of_technology("ab"),
        (u32::MAX - 1, u32::MAX)
    );
    assert_eq!(
        SvgBuilder::new(u32::MAX, 1).get_size_of_technology("ab"),
        (u32::MAX, u32::MAX)
    );
    assert_eq!(
        SvgBuilder::new(2, u32::MAX).get_size_of_technology("a"),
        (u32::MAX, 4)
    );
}

#[test]
fn test_box_is_clipped_at_the_edges() {
    let mut builder = SvgBuilder::new(10, 10);

    builder.render_technology("Tech", 3, 4);
    builder.render_technology("T", u32::MAX, u32::MAX);
    builder.render_link(vec![]);
    builder.render_link(vec![(1, 2)]);
    builder.render_link(vec![(1, 2), (3, 4), (5, 6)]);

    let text = builder.export_as_string();
    assert!(text.contains("<rect fill=\"#4fc3ff\" height=\"20\" stroke=\"black\" stroke-width=\"1\" width=\"40\" x=\"0\" y=\"0\"/>"));
    assert!(text.contains("<text font-size=\"10\" text-anchor=\"middle\" x=\"3\" y=\"7\">\nTech\n</text>"));
    assert!(text.contains("width=\"25\" x=\"4294967283\" y=\"4294967285\"/>"));
    assert!(text.contains("text-anchor=\"middle\" x=\"4294967295\" y=\"4294967295\">\nT\n</text>"));
    assert!(text.contains("<path d=\"M1,2\" fill=\"none\""));
    assert!(text.contains("<path d=\"M1,2 L3,4 L5,6\" fill=\"none\""));
    assert_eq!(text.matches("<path").count(), 3);
}

#[test]
fn test_tree_as_svg() {
    let tree = create_tree(vec![
        Input::test("Technology 0", vec![]),
        Input::test("Technology 1", vec!["Technology 0"]),
    ])
    .unwrap();
    let mut builder = SvgBuilder::new(10, 10);
    let mut tree_renderer = TreeRenderer::new(20);

    assert!(tree_renderer.render(&mut builder, &tree));

    let result = "<svg viewBox=\"0 0 120 120\" xmlns=\"http://www.w3.org/2000/svg\">
<defs>
<marker id=\"head\" orient=\"auto\" refX=\"1\" refY=\"7\" viewBox=\"0 0 10 10\">
<path d=\"M0,0 L10,7 L0,14 z\" fill=\"black\"/>
</marker>
</defs>
<rect fill=\"#4fc3ff\" height=\"20\" stroke=\"black\" stroke-width=\"1\" width=\"80\" x=\"20\" y=\"20\"/>
<text font-size=\"10\" text-anchor=\"middle\" x=\"60\" y=\"33\">
Technology 0
</text>
<path d=\"M60,40 L60,80\" fill=\"none\" marker-end=\"url(#head)\" stroke=\"black\" stroke-width=\"1\"/>
<rect fill=\"#4fc3ff\" height=\"20\" stroke=\"black\" stroke-width=\"1\" width=\"80\" x=\"20\" y=\"80\"/>
<text font-size=\"10\" text-anchor=\"middle\" x=\"60\" y=\"93\">
Technology 1
</text>
</svg>";
    assert_eq!(builder.export_as_string(), result.to_string());
}
