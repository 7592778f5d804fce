use colored::Colorize;
use reconf::format_key_string;
use reconf::format_value_string;
use colored::{Color, Styles};
use reconf::style::{decorate, key_look, key_text, paint, value_look, value_text, Look, Tint};
use reconf::Config;

const PLAIN: Look = Look { bold: false, dimmed: false, italic: false, tint: None };

fn colours_on() {
    colored::control::set_override(true);
}

#[test]
fn key_styles_are_the_nine_presets() {
    assert_eq!(key_look(0), PLAIN);
    assert_eq!(key_look(1), Look { bold: true, tint: Some(Tint::Blue), ..PLAIN });
    assert_eq!(key_look(2), Look { tint: Some(Tint::Cyan), ..PLAIN });
    assert_eq!(key_look(3), Look { tint: Some(Tint::BrightBlack), ..PLAIN });
    assert_eq!(key_look(4), Look { dimmed: true, italic: true, ..PLAIN });
    assert_eq!(key_look(5), Look { tint: Some(Tint::BrightGreen), ..PLAIN });
    assert_eq!(key_look(6), Look { tint: Some(Tint::BrightMagenta), ..PLAIN });
    assert_eq!(key_look(7), Look { bold: true, tint: Some(Tint::Yellow), ..PLAIN });
    assert_eq!(key_look(8), Look { dimmed: true, tint: Some(Tint::Blue), ..PLAIN });
    assert_eq!(key_look(9), Look { tint: Some(Tint::Magenta), ..PLAIN });
    assert_eq!(key_look(10), PLAIN);
    assert_eq!(key_look(255), PLAIN);
}

#[test]
fn value_styles_are_the_nine_presets() {
    assert_eq!(value_look(0), PLAIN);
    assert_eq!(value_look(1), Look { italic: true, tint: Some(Tint::Yellow), ..PLAIN });
    assert_eq!(value_look(2), Look { bold: true, tint: Some(Tint::Green), ..PLAIN });
    assert_eq!(value_look(3), Look { tint: Some(Tint::BrightMagenta), ..PLAIN });
    assert_eq!(value_look(4), Look { italic: true, ..PLAIN });
    assert_eq!(value_look(5), Look { italic: true, tint: Some(Tint::Blue), ..PLAIN });
    assert_eq!(value_look(6), Look { dimmed: true, tint: Some(Tint::Yellow), ..PLAIN });
    assert_eq!(value_look(7), Look { tint: Some(Tint::BrightRed), ..PLAIN });
    assert_eq!(value_look(8), Look { bold: true, tint: Some(Tint::White), ..PLAIN });
    assert_eq!(value_look(9), Look { dimmed: true, tint: Some(Tint::White), ..PLAIN });
    assert_eq!(value_look(10), PLAIN);
    assert_eq!(value_look(200), PLAIN);
}

#[test]
fn without_a_style_the_text_is_only_trimmed() {
    colours_on();
    assert_eq!(format_key_string("  key ", 0).to_string(), "key");
    assert_eq!(format_value_string(" a value\t", 0).to_string(), "a value");
    assert_eq!(format_key_string("key", 10).to_string(), "key");
    assert_eq!(format_value_string("value", 255).to_string(), "value");
    assert_eq!(paint(" kept as it is ", PLAIN), " kept as it is ");
}

#[test]
fn keys_are_decorated_as_the_style_asks() {
    colours_on();
    assert_eq!(format_key_string(" k ", 1).to_string(), "k".bold().blue().to_string());
    assert_eq!(format_key_string("k", 1).to_string(), "\x1b[1;34mk\x1b[0m");
    assert_eq!(format_key_string("k", 2).to_string(), "k".cyan().to_string());
    assert_eq!(format_key_string("k", 3).to_string(), "k".bright_black().to_string());
    assert_eq!(format_key_string("k", 4).to_string(), "k".dimmed().italic().to_string());
    assert_eq!(format_key_string("k", 4).to_string(), "\x1b[2;3mk\x1b[0m");
    assert_eq!(format_key_string("k", 5).to_string(), "k".bright_green().to_string());
    assert_eq!(format_key_string("k", 6).to_string(), "k".bright_purple().to_string());
    assert_eq!(format_key_string("k", 7).to_string(), "k".bold().yellow().to_string());
    assert_eq!(format_key_string("k", 8).to_string(), "k".dimmed().blue().to_string());
    assert_eq!(format_key_string("k", 9).to_string(), "k".magenta().to_string());
    assert_eq!(format_key_string("k", 9).to_string(), "\x1b[35mk\x1b[0m");
}

#[test]
fn values_are_decorated_as_the_style_asks() {
    colours_on();
    assert_eq!(format_value_string(" v ", 1).to_string(), "v".italic().yellow().to_string());
    assert_eq!(format_value_string("v", 2).to_string(), "v".bold().green().to_string());
    assert_eq!(format_value_string("v", 3).to_string(), "v".bright_magenta().to_string());
    assert_eq!(format_value_string("v", 4).to_string(), "v".italic().to_string());
    assert_eq!(format_value_string("v", 4).to_string(), "\x1b[3mv\x1b[0m");
    assert_eq!(format_value_string("v", 5).to_string(), "v".italic().blue().to_string());
    assert_eq!(format_value_string("v", 6).to_string(), "v".dimmed().yellow().to_string());
    assert_eq!(format_value_string("v", 7).to_string(), "v".bright_red().to_string());
    assert_eq!(format_value_string("v", 7).to_string(), "\x1b[91mv\x1b[0m");
    assert_eq!(format_value_string("v", 8).to_string(), "v".bold().white().to_string());
    assert_eq!(format_value_string("v", 9).to_string(), "v".dimmed().white().to_string());
}

#[test]
fn each_part_of_a_look_is_put_on() {
    colours_on();
    assert_eq!(paint("t", Look { bold: true, ..PLAIN }), "\x1b[1mt\x1b[0m");
    assert_eq!(paint("t", Look { dimmed: true, ..PLAIN }), "\x1b[2mt\x1b[0m");
    assert_eq!(paint("t", Look { italic: true, ..PLAIN }), "\x1b[3mt\x1b[0m");
    assert_eq!(paint("t", Look { tint: Some(Tint::Green), ..PLAIN }), "\x1b[32mt\x1b[0m");
    for (tint, shown) in [
        (Tint::Blue, "t".blue()),
        (Tint::Cyan, "t".cyan()),
        (Tint::Green, "t".green()),
        (Tint::Magenta, "t".magenta()),
        (Tint::White, "t".white()),
        (Tint::Yellow, "t".yellow()),
        (Tint::BrightBlack, "t".bright_black()),
        (Tint::BrightGreen, "t".bright_green()),
        (Tint::BrightMagenta, "t".bright_magenta()),
        (Tint::BrightRed, "t".bright_red()),
    ] {
        assert_eq!(paint("t", Look { tint: Some(tint), ..PLAIN }), shown.to_string());
    }
}

#[test]
fn a_styled_store_is_written_with_its_decoration() {
    colours_on();
    let mut c = Config::new();
    c.set("k", "v");
    c.style = 1;
    let line = format!("{} = \"{}\"", "k".bold().blue(), "v".italic().yellow());
    assert_eq!(c.to_string(), line);
    assert_eq!(c.pair_text("k", "v"), line);
    assert_eq!(c.keys_list_text(), "k".bold().blue().to_string());
    assert_eq!(c.get("k"), Some("v".to_string()));
}

#[test]
fn a_decorated_text_holds_the_text() {
    colours_on();
    for style in 0..=12u8 {
        let key = format_key_string("  some key ", style).to_string();
        let value = format_value_string(" some value", style).to_string();
        assert!(key.contains("some key"), "{}", style);
        assert!(value.contains("some value"), "{}", style);
        let mut c = Config::new();
        c.style = style;
        c.set("a", "1");
        c.set("b", "2");
        let text = c.to_string();
        let lines: Vec<&str> = text.split('\n').collect();
        assert_eq!(lines.len(), 2);
        assert_eq!(lines[0], format!("{} = \"{}\"", format_key_string("b", style), format_value_string("2", style)));
        assert_eq!(lines[1], c.pair_text("a", "1"));
    }
}

#[test]
fn a_piece_carries_its_text_and_its_decoration() {
    let key = format_key_string("  k ", 1);
    assert_eq!(&*key, "k");
    assert_eq!(key.fgcolor, Some(Color::Blue));
    assert!(key.style.contains(Styles::Bold));
    assert!(!key.style.contains(Styles::Dimmed));
    assert!(!key.style.contains(Styles::Italic));
    let value = format_value_string(" v", 6);
    assert_eq!(&*value, "v");
    assert_eq!(value.fgcolor, Some(Color::Yellow));
    assert!(value.style.contains(Styles::Dimmed));
    assert!(!value.style.contains(Styles::Bold));
    let plain = format_key_string(" p ", 0);
    assert_eq!(&*plain, "p");
    assert!(plain.is_plain());
    let all = decorate(" t ", Look { bold: true, dimmed: true, italic: true, tint: Some(Tint::Cyan) });
    assert_eq!(&*all, " t ");
    assert_eq!(all.fgcolor, Some(Color::Cyan));
    assert!(all.style.contains(Styles::Bold));
    assert!(all.style.contains(Styles::Dimmed));
    assert!(all.style.contains(Styles::Italic));
    assert!(!all.is_plain());
}

#[test]
fn key_and_value_text_are_the_pieces_as_printed() {
    colours_on();
    for style in 0..=10u8 {
        assert_eq!(key_text(" k ", style), format_key_string(" k ", style).to_string());
        assert_eq!(value_text(" v ", style), format_value_string(" v ", style).to_string());
    }
    assert_eq!(key_text(" k ", 0), "k");
    assert_eq!(value_text("v", 7), "\x1b[91mv\x1b[0m");
}
