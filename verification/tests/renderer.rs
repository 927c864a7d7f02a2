use mosh_client::renderer::{DrawCommand, NotificationBar, Renderer, TextAttribute};
use mosh_client::terminal::{Color, Framebuffer};

#[test]
fn first_rendering_draws_all() {
    let mut fb = Framebuffer::new(2, 2);
    fb.cells[0][1].character = 'x';
    fb.cells[0][1].fg = Color::Indexed(1);
    fb.cells[0][1].attrs.bold = true;
    fb.cursor_row = 1;
    fb.cursor_col = 1;
    let mut r = Renderer::new(2, 2);
    let commands = r.render(&fb);
    assert_eq!(
        commands,
        vec![
            DrawCommand::HideCursor,
            DrawCommand::ClearAll,
            DrawCommand::MoveTo { col: 0, row: 0 },
            DrawCommand::MoveTo { col: 0, row: 0 },
            DrawCommand::Print(' '),
            DrawCommand::SetForeground(Color::Indexed(1)),
            DrawCommand::ResetAttributes,
            DrawCommand::SetForeground(Color::Indexed(1)),
            DrawCommand::SetAttribute(TextAttribute::Bold),
            DrawCommand::Print('x'),
            DrawCommand::MoveTo { col: 0, row: 1 },
            DrawCommand::SetForeground(Color::Default),
            DrawCommand::ResetAttributes,
            DrawCommand::Print(' '),
            DrawCommand::Print(' '),
            DrawCommand::ResetColor,
            DrawCommand::ResetAttributes,
            DrawCommand::MoveTo { col: 1, row: 1 },
            DrawCommand::ShowCursor,
        ]
    );
    assert!(!r.force_redraw);
    assert_eq!(r.prev_cells, fb.cells);
    assert_eq!(r.prev_cursor, (1, 1));
}

#[test]
fn later_renderings_draw_what_changed() {
    let mut fb = Framebuffer::new(3, 2);
    let mut r = Renderer::new(3, 2);
    r.render(&fb);
    assert_eq!(
        r.render(&fb),
        vec![
            DrawCommand::HideCursor,
            DrawCommand::MoveTo { col: 0, row: 0 },
            DrawCommand::ShowCursor
        ]
    );
    fb.cells[1][0].character = 'a';
    fb.cells[1][1].character = 'b';
    fb.cursor_visible = false;
    assert_eq!(
        r.render(&fb),
        vec![
            DrawCommand::HideCursor,
            DrawCommand::MoveTo { col: 0, row: 1 },
            DrawCommand::Print('a'),
            DrawCommand::Print('b'),
            DrawCommand::ResetColor,
            DrawCommand::ResetAttributes,
            DrawCommand::MoveTo { col: 0, row: 0 },
        ]
    );
    assert!(!r.prev_cursor_visible);
    r.force_redraw();
    assert_eq!(r.render(&fb)[1], DrawCommand::ClearAll);
    // Another size draws all, too.
    let other = Framebuffer::new(1, 1);
    let commands = r.render(&other);
    assert_eq!(commands[1], DrawCommand::ClearAll);
    assert_eq!((r.width, r.height), (1, 1));
    r.resize(4, 4);
    assert!(r.force_redraw);
    assert_eq!(r.prev_cells.len(), 4);
}

#[test]
fn notification_bar() {
    let mut bar = NotificationBar::new();
    assert!(!bar.visible);
    assert!(!bar.is_shown(24));
    bar.set_message("mosh: Connecting...");
    assert!(bar.visible);
    assert_eq!(bar.message, "mosh: Connecting...");
    assert!(bar.is_shown(24));
    assert!(!bar.is_shown(0));
    bar.set_message("");
    assert!(!bar.visible);
    bar.set_message("x");
    bar.clear();
    assert!(!bar.visible);
    assert_eq!(bar.message, "");
}

#[test]
fn notification_bar_is_cut_and_filled_to_the_width() {
    let mut bar = NotificationBar::new();
    assert!(bar.render(10, 5).is_empty());
    bar.set_message("mosh");
    assert!(bar.render(10, 0).is_empty());
    let commands = bar.render(6, 5);
    let mut expected = vec![
        DrawCommand::MoveTo { col: 0, row: 4 },
        DrawCommand::SetBackground(Color::Indexed(4)),
        DrawCommand::SetForeground(Color::Indexed(15)),
        DrawCommand::SetAttribute(TextAttribute::Bold),
    ];
    for c in "mosh  ".chars() {
        expected.push(DrawCommand::Print(c));
    }
    expected.push(DrawCommand::ResetColor);
    expected.push(DrawCommand::ResetAttributes);
    assert_eq!(commands, expected);

    let cut = bar.render(3, 1);
    let printed: String = cut
        .iter()
        .filter_map(|c| match c {
            DrawCommand::Print(c) => Some(*c),
            _ => None,
        })
        .collect();
    assert_eq!(printed, "mos");
    assert_eq!(cut[0], DrawCommand::MoveTo { col: 0, row: 0 });
    bar.clear();
    assert!(bar.render(6, 5).is_empty());
}

#[test]
fn full_redraw_gives_every_command_in_order() {
    let mut fb = Framebuffer::new(2, 1);
    fb.print('a');
    let mut renderer = Renderer::new(2, 1);
    let commands = renderer.render(&fb);
    assert_eq!(
        commands,
        vec![
            DrawCommand::HideCursor,
            DrawCommand::ClearAll,
            DrawCommand::MoveTo { col: 0, row: 0 },
            DrawCommand::MoveTo { col: 0, row: 0 },
            DrawCommand::Print('a'),
            DrawCommand::Print(' '),
            DrawCommand::ResetColor,
            DrawCommand::ResetAttributes,
            DrawCommand::MoveTo { col: 1, row: 0 },
            DrawCommand::ShowCursor,
        ]
    );
    fb.print('b');
    let commands = renderer.render(&fb);
    assert_eq!(
        commands,
        vec![
            DrawCommand::HideCursor,
            DrawCommand::MoveTo { col: 1, row: 0 },
            DrawCommand::Print('b'),
            DrawCommand::ResetColor,
            DrawCommand::ResetAttributes,
            DrawCommand::MoveTo { col: 1, row: 0 },
            DrawCommand::ShowCursor,
        ]
    );
    let commands = renderer.render(&fb);
    assert_eq!(
        commands,
        vec![
            DrawCommand::HideCursor,
            DrawCommand::MoveTo { col: 1, row: 0 },
            DrawCommand::ShowCursor,
        ]
    );
}
