use rusty::commands::{
    command_terms, contains_text, join_terms, lookup_command, parse_strain, parse_vote,
    strain_url, ud_url, weather_url, CommandKind,
};
use rusty::supervisor::{step, Directive, Event, Phase};

#[test]
fn registry_lookup() {
    assert_eq!(lookup_command("weather"), Some(CommandKind::Weather));
    assert_eq!(lookup_command("ud"), Some(CommandKind::Ud));
    assert_eq!(lookup_command("strain"), Some(CommandKind::Strain));
    assert_eq!(lookup_command("nega"), Some(CommandKind::Nega));
    assert_eq!(lookup_command("kudos"), Some(CommandKind::Kudos));
    assert_eq!(lookup_command("giphy"), None);
    assert_eq!(lookup_command("Weather"), None);
}

#[test]
fn terms_and_joins() {
    assert_eq!(command_terms("  og  kush "), vec!["og".to_string(), "kush".to_string()]);
    assert_eq!(join_terms(&command_terms("og kush"), '-'), "og-kush");
    assert_eq!(join_terms(&vec![], '+'), "");
}

#[test]
fn request_urls() {
    assert_eq!(ud_url("big  deal").unwrap(), "https://api.urbandictionary.com/v0/define?term=big+deal");
    assert_eq!(strain_url("og kush").unwrap(), "https://www.leafly.com/strains/og-kush");
    assert_eq!(
        weather_url("boston ma", "K").unwrap(),
        "https://api.openweathermap.org/data/2.5/weather?q=boston,us&APPID=K"
    );
    assert!(ud_url("   ").is_none());
    assert!(strain_url("").is_none());
    assert!(weather_url("", "K").is_none());
}

#[test]
fn vote_argument() {
    assert_eq!(parse_vote("bob for being rude"), Some(("bob".to_string(), "for being rude".to_string())));
    assert_eq!(parse_vote("bob"), None);
    assert_eq!(parse_vote(""), None);
    assert_eq!(parse_vote("bob "), Some(("bob".to_string(), "".to_string())));
}

#[test]
fn substring_search() {
    assert!(contains_text("a strain__description b", "strain__description"));
    assert!(!contains_text("strain__desc", "strain__description"));
    assert!(contains_text("abc", ""));
}

#[test]
fn strain_description_from_page() {
    let html = "<html><body><div class=\"x\">no</div><div>plain</div>\
                <div class=\"box strain__description\"><p>Calm and sweet.</p></div>\
                <div class=\"strain__description\">second</div></body></html>";
    assert_eq!(parse_strain(html), Some("Calm and sweet.".to_string()));
    assert_eq!(parse_strain("<div class=\"other\">x</div>"), None);
}

#[test]
fn supervisor_transitions() {
    assert_eq!(step(Phase::Disconnected, Event::Ready, false), (Phase::Connecting, Directive::Connect));
    assert_eq!(step(Phase::Connecting, Event::ConnectFailed, false), (Phase::Disconnected, Directive::Wait));
    assert_eq!(step(Phase::Connecting, Event::ConnectOk, false), (Phase::Connected, Directive::Register));
    assert_eq!(step(Phase::Connected, Event::ReadTimeout, false), (Phase::Connected, Directive::Read));
    assert_eq!(step(Phase::Connected, Event::ReadData, false), (Phase::Connected, Directive::Handle));
    assert_eq!(step(Phase::Connected, Event::TransportFailed, false), (Phase::Disconnected, Directive::CloseAndWait));
    assert_eq!(step(Phase::Connected, Event::ReadTimeout, true), (Phase::ShuttingDown, Directive::QuitAndClose));
    assert_eq!(step(Phase::ShuttingDown, Event::Closed, true), (Phase::Done, Directive::Exit));
    assert_eq!(step(Phase::Disconnected, Event::Ready, true), (Phase::Done, Directive::Exit));
    assert_eq!(step(Phase::Connecting, Event::ConnectOk, true), (Phase::Connected, Directive::Register));
    assert_eq!(step(Phase::Connected, Event::Registered, true), (Phase::ShuttingDown, Directive::QuitAndClose));
    assert_eq!(step(Phase::Connected, Event::Registered, false), (Phase::Connected, Directive::Read));
}
