use server::clock::CivilTime;
use server::console::{color_code, console_line, level_color, level_name, ConsoleColor, LogLevel};
use server::filter::{CrateFilter, FilterResponse, VerbosityScope};
use server::packets::{ClientBoundPackets, ServerBoundPackets};

fn morning() -> CivilTime {
    CivilTime { year: 2024, month: 3, day: 4, ordinal: 64, hour: 9, minute: 5, second: 7 }
}

#[test]
fn level_colors() {
    assert_eq!(level_color(LogLevel::Error), ConsoleColor::Red);
    assert_eq!(level_color(LogLevel::Warn), ConsoleColor::LightYellow);
    assert_eq!(level_color(LogLevel::Debug), ConsoleColor::LightCyan);
    assert_eq!(level_color(LogLevel::Info), ConsoleColor::Reset);
    assert_eq!(level_color(LogLevel::Trace), ConsoleColor::Reset);
}

#[test]
fn color_escape_codes() {
    assert_eq!(color_code(ConsoleColor::Red), "\x1b[38;5;1m");
    assert_eq!(color_code(ConsoleColor::LightYellow), "\x1b[38;5;11m");
    assert_eq!(color_code(ConsoleColor::LightCyan), "\x1b[38;5;14m");
    assert_eq!(color_code(ConsoleColor::Reset), "\x1b[39m");
}

#[test]
fn level_names() {
    assert_eq!(level_name(LogLevel::Error), "ERROR");
    assert_eq!(level_name(LogLevel::Warn), "WARN");
    assert_eq!(level_name(LogLevel::Info), "INFO");
    assert_eq!(level_name(LogLevel::Debug), "DEBUG");
    assert_eq!(level_name(LogLevel::Trace), "TRACE");
}

#[test]
fn colored_console_lines() {
    assert_eq!(
        console_line(LogLevel::Error, &morning(), "disk full", true),
        "\x1b[38;5;1m[09:05:07 ERROR]: disk full\x1b[39m\n"
    );
    assert_eq!(
        console_line(LogLevel::Info, &morning(), "ready", true),
        "\x1b[39m[09:05:07 INFO]: ready\x1b[39m\n"
    );
}

#[test]
fn plain_console_lines() {
    assert_eq!(console_line(LogLevel::Warn, &morning(), "slow", false), "[09:05:07 WARN]: slow\n");
    assert_eq!(console_line(LogLevel::Debug, &morning(), "", false), "[09:05:07 DEBUG]: \n");
}

#[test]
fn restricted_filter_admits_own_modules_only() {
    let f = CrateFilter::new(VerbosityScope::Restricted);
    assert_eq!(f.filter(Some("server::logging")), FilterResponse::Accept);
    assert_eq!(f.filter(Some("server")), FilterResponse::Accept);
    assert_eq!(f.filter(Some("warp::server")), FilterResponse::Reject);
    assert_eq!(f.filter(Some("serve")), FilterResponse::Reject);
    assert_eq!(f.filter(Some("server::packets::inner")), FilterResponse::Accept);
    assert_eq!(f.filter(Some("serverless")), FilterResponse::Reject);
    assert_eq!(f.filter(Some("serverless::api")), FilterResponse::Reject);
    assert_eq!(f.filter(Some("server:")), FilterResponse::Reject);
    assert_eq!(f.filter(None), FilterResponse::Reject);
}

#[test]
fn unrestricted_filter_is_neutral() {
    let f = CrateFilter::new(VerbosityScope::Unrestricted);
    assert_eq!(f.filter(Some("server::logging")), FilterResponse::Neutral);
    assert_eq!(f.filter(Some("hyper::proto")), FilterResponse::Neutral);
    assert_eq!(f.filter(None), FilterResponse::Neutral);
}

#[test]
fn packets_hold_their_fields() {
    let p = ServerBoundPackets::CreateGame { code: "ab12".to_string(), password: "pw".to_string(), max_players: 8 };
    assert_eq!(p.clone(), p);
    assert_ne!(p, ServerBoundPackets::JoinGame { code: "ab12".to_string() });
    assert_eq!(ClientBoundPackets::PackResponse { accepted: true }, ClientBoundPackets::PackResponse { accepted: true });
    assert_ne!(ClientBoundPackets::RegisterPack, ClientBoundPackets::PackResponse { accepted: false });
}
