use std::collections::BTreeMap;

use train_game::render_commands::{RenderCommand, RenderCommands, RenderLayer};

type Commands = RenderCommands<char, u32, u16, u8, i64, &'static str>;

fn fonts() -> BTreeMap<u64, &'static str> {
    let mut f = BTreeMap::new();
    f.insert(9, "arial");
    f.insert(4, "consolas");
    f.insert(6, "cambria");
    f
}

#[test]
fn new_commands_use_least_font_and_one_layer() {
    let c: Commands = RenderCommands::new(fonts());
    assert_eq!(c.current_font_id, 4);
    assert_eq!(c.fonts.len(), 3);
    let layers: Vec<_> = c.layers().collect();
    assert_eq!(layers.len(), 1);
    assert_eq!(layers[0].name, "");
    assert!(layers[0].rect_commands.is_empty());
}

#[test]
fn commands_go_to_the_top_layer() {
    let mut c: Commands = RenderCommands::new(fonts());
    c.enqueue(RenderCommand::Rect(1));
    c.enqueue(RenderCommand::Char('a'));
    c.new_layer("smoke");
    c.enqueue(RenderCommand::Rect(2));
    c.enqueue(RenderCommand::Circle(7));
    c.enqueue(RenderCommand::Line(3));
    c.enqueue(RenderCommand::Chunk(-5));
    c.enqueue(RenderCommand::Rect(3));
    let layers: Vec<_> = c.layers().collect();
    assert_eq!(layers.len(), 2);
    assert_eq!(layers[0].rect_commands, vec![1]);
    assert_eq!(layers[0].char_commands, vec!['a']);
    assert_eq!(layers[1].name, "");
    assert_eq!(layers[1].rect_commands, vec![2, 3]);
    assert_eq!(layers[1].circle_commands, vec![7]);
    assert_eq!(layers[1].line_commands, vec![3]);
    assert_eq!(layers[1].chunk_commands, vec![-5]);
    assert!(layers[1].char_commands.is_empty());
}

#[test]
fn sprites_are_grouped_by_texture() {
    let mut c: Commands = RenderCommands::new(fonts());
    c.enqueue(RenderCommand::Sprite(10, 1));
    c.enqueue(RenderCommand::Sprite(20, 2));
    c.enqueue(RenderCommand::Sprite(10, 3));
    let layers: Vec<_> = c.layers().collect();
    assert_eq!(layers[0].sprite_commands.get(&10), Some(&vec![1, 3]));
    assert_eq!(layers[0].sprite_commands.get(&20), Some(&vec![2]));
    assert!(layers[0].rect_commands.is_empty());
}

#[test]
fn clear_leaves_one_empty_layer() {
    let mut c: Commands = RenderCommands::new(fonts());
    c.enqueue(RenderCommand::Rect(1));
    c.new_layer("ui");
    c.new_layer("clouds");
    c.clear();
    let layers: Vec<_> = c.layers().collect();
    assert_eq!(layers.len(), 1);
    assert!(layers[0].rect_commands.is_empty());
    c.enqueue(RenderCommand::Line(4));
    assert_eq!(c.layers().next().unwrap().line_commands, vec![4]);
    assert_eq!(c.current_font_id, 4);
}

#[test]
fn named_layer_starts_empty() {
    let mut l: RenderLayer<char, u32, u16, u8, i64> = RenderLayer::new("terrain");
    assert_eq!(l.name, "terrain");
    l.push(RenderCommand::Sprite(1, 5));
    l.push(RenderCommand::Sprite(1, 6));
    assert_eq!(l.sprite_commands.get(&1), Some(&vec![5, 6]));
    let d: RenderLayer<char, u32, u16, u8, i64> = RenderLayer::default();
    assert_eq!(d.name, "");
}
