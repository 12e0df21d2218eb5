use colored::control::set_override;
use console_logger::style::paint;
use console_logger::{format_timestamped, level_color, level_text_color, prefix_token, Hue};
use log::Level;

#[test]
fn lines_are_painted_where_the_process_has_colouring_switched_off() {
    set_override(false);
    assert_eq!(paint(Hue::Green, "x"), "\x1b[1;32mx\x1b[0m");
    set_override(false);
    assert_eq!(level_color(&Level::Debug, "ok"), "\x1b[1;32mok\x1b[0m");
    set_override(false);
    assert_eq!(level_text_color(&Level::Info, "hello"), "\x1b[1;37mhello\x1b[0m");
    set_override(false);
    assert_eq!(
        prefix_token(&Level::Error),
        "\x1b[1;34m[\x1b[0m\x1b[1;31mE\x1b[0m\x1b[1;34m]\x1b[0m"
    );
    set_override(false);
    assert_eq!(
        console_logger::layout::format(&Level::Warn, "a\nb"),
        "\x1b[1;34m[\x1b[0m\x1b[1;33mW\x1b[0m\x1b[1;34m]\x1b[0m \
         \x1b[1;33ma\n\x1b[1;37m | \x1b[0m\x1b[1;33m b\x1b[0m"
    );
    set_override(false);
    assert_eq!(
        format_timestamped(&Level::Info, 3, "app::main", "hello"),
        "\x1b[1;34m[\x1b[0m\x1b[1;34m*\x1b[0m\x1b[1;34m]\x1b[0m [3s, app::main] - \
         \x1b[1;37mhello\x1b[0m"
    );
}
