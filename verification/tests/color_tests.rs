use wiktionary_en::entities::result::did_you_mean_banner;
use wiktionary_en::extension::{apply_color, apply_style};
use wiktionary_en::text::format_integer;

#[test]
fn colors_and_styles_by_name() {
    colored::control::set_override(false);
    assert_eq!(apply_color("text", "RED"), "text");
    assert_eq!(apply_color("text", "chartreuse"), "text");
    assert_eq!(apply_style("text", "Bold"), "text");
    assert_eq!(apply_style("text", "wavy"), "text");
    colored::control::set_override(true);
    assert_eq!(apply_color("text", "Red"), "\x1b[31mtext\x1b[0m");
    assert_eq!(apply_color("text", "BLUE"), "\x1b[34mtext\x1b[0m");
    assert_eq!(apply_color("text", "chartreuse"), "text");
    assert_eq!(apply_style("text", "bold"), "\x1b[1mtext\x1b[0m");
    assert_eq!(apply_style("text", "Underline"), "\x1b[4mtext\x1b[0m");
    assert_eq!(apply_style("text", "wavy"), "text");
    assert_eq!(format_integer(1234).to_string(), "\x1b[33m1,234\x1b[0m");
    assert_eq!(
        did_you_mean_banner("hoose", "house"),
        "No result for \x1b[31mhoose\x1b[0m.\nDid you mean  \x1b[33mhouse\x1b[0m?\n"
    );
    colored::control::set_override(false);
}
