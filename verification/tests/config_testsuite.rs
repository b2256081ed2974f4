use fallegji::config::{
    default_border_style, default_max_height, parse_border_style, Border, ChatChoice, ChatConfig, Color, Config,
    ConfigError, TomlConfig,
};
use fallegji::connection::peer::SockAddr;

fn section(user: Option<&str>) -> ChatConfig {
    ChatConfig {
        user_id: Some(7),
        user_name: user.map(|u| u.to_string()),
        rendezvous: None,
        prvkey: None,
        border_style: None,
        max_height: None,
        bg_color: None,
        text_color: None,
        border_color: None,
        normal_mode: None,
        insert_mode: None,
        timeout_mode: None,
        users_color: None,
        my_color: None,
        system_color: None,
        online_color: None,
    }
}

#[test]
fn defaults() {
    assert_eq!(default_border_style(), "Rounded");
    assert_eq!(default_max_height(), 5);
    let c = Config::default();
    assert_eq!(c.user_name.as_deref(), Some("Me"));
    assert_eq!(c.border_style, Border::Rounded);
    assert_eq!(c.max_height, 5);
    assert_eq!(c.normal_mode, Color::Rgb(0, 212, 255));
    assert_eq!(c.insert_mode, Color::Rgb(255, 102, 204));
    assert_eq!(c.timeout_mode, Color::Rgb(255, 49, 49));
    assert_eq!(c.my_color, Color::Green);
    assert_eq!(c.warn_color(), Color::Red);
}

#[test]
fn border_names() {
    assert_eq!(parse_border_style("plain"), Border::Plain);
    assert_eq!(parse_border_style("THICK"), Border::Thick);
    assert_eq!(parse_border_style("Double"), Border::Double);
    assert_eq!(parse_border_style("rounded"), Border::Rounded);
    assert_eq!(parse_border_style("wavy"), Border::Rounded);
    assert_eq!(parse_border_style("thic\u{212A}"), Border::Thick);
    assert_eq!(parse_border_style(" plain"), Border::Rounded);
}

#[test]
fn warning_colour() {
    let mut c = Config::default();
    c.my_color = Color::Rgb(200, 30, 30);
    assert_eq!(c.warn_color(), Color::Rgb(255, 100, 0));
    c.my_color = Color::Rgb(119, 30, 30);
    assert_eq!(c.warn_color(), Color::Red);
    c.my_color = Color::Rgb(200, 61, 30);
    assert_eq!(c.warn_color(), Color::Red);
}

#[test]
fn settings_are_layered() {
    let mut toml = TomlConfig::empty();
    toml.text_color = Some((1, 2, 3));
    toml.bg_color = Some((4, 5, 6));
    toml.max_height = 9;
    let mut s = section(Some("a"));
    s.bg_color = Some((7, 8, 9));
    s.border_style = Some("double".to_string());
    s.prvkey = Some("11".repeat(32));
    toml.chats.push(("a @ room".to_string(), s));
    let c = Config::from_toml(&toml, Some("a @ room"));
    assert_eq!(c.user_id, Some(7));
    assert_eq!(c.bg_color, Color::Rgb(7, 8, 9));
    assert_eq!(c.text_color, Color::Rgb(1, 2, 3));
    assert_eq!(c.border_color, Color::DarkGray);
    assert_eq!(c.border_style, Border::Double);
    assert_eq!(c.max_height, 9);
    assert_eq!(c.prvkey, Some([0x11; 32]));
    let g = Config::from_toml(&toml, None);
    assert_eq!(g.user_id, None);
    assert_eq!(g.bg_color, Color::Rgb(4, 5, 6));
    let missing = Config::from_toml(&toml, Some("nobody"));
    assert_eq!(missing.user_name, None);
    // A secret of the wrong length is dropped.
    toml.chats[0].1.prvkey = Some("11".repeat(31));
    assert_eq!(Config::from_toml(&toml, Some("a @ room")).prvkey, None);
}

#[test]
fn saving_a_chat() {
    let mut toml = TomlConfig::empty();
    let addr = SockAddr::V4 { ip: 0x7F00_0001, port: 1000 };
    let saved = Config::save(&mut toml, "room", "ann", Some(addr), 42, &[3u8; 32]).unwrap();
    assert_eq!(toml.chats.len(), 1);
    assert_eq!(toml.chats[0].0, "ann @ room");
    assert_eq!(toml.chats[0].1.prvkey.as_deref(), Some("03".repeat(32).as_str()));
    assert_eq!(saved.user_id, Some(42));
    assert_eq!(saved.rendezvous, Some(addr));
    let loaded = Config::from_toml(&toml, Some("ann @ room"));
    assert_eq!(loaded.prvkey, saved.prvkey);
    assert_eq!(loaded.user_name, saved.user_name);
    assert_eq!(
        Config::save(&mut toml, "room", "ann", Some(addr), 42, &[3u8; 32]).err(),
        Some(ConfigError::ChatExists)
    );
    assert_eq!(Config::save(&mut toml, "hall", "ann", None, 42, &[3u8; 32]).err(), Some(ConfigError::BadRendezvous));
    assert_eq!(toml.chats.len(), 1);
}

#[test]
fn choosing_and_deleting_chats() {
    let mut choice = ChatChoice::from_sections(vec!["b @ x".to_string(), "a @ y @ z".to_string(), "c".to_string()]);
    assert_eq!(choice.available, vec!["a @ y @ z", "b @ x", "c"]);
    assert_eq!(choice.current(), Some("a @ y @ z"));
    let mut toml = TomlConfig::empty();
    toml.chats.push(("c".to_string(), section(None)));
    toml.chats.push(("a @ y @ z".to_string(), section(Some("al"))));
    let (idx, stem) = choice.delete_target(&toml).unwrap();
    assert_eq!(idx, 1);
    assert_eq!(stem, "al__z");
    choice.choice = 2;
    let (idx, stem) = choice.delete_target(&toml).unwrap();
    assert_eq!(idx, 0);
    assert_eq!(stem, "c__c");
    choice.forget_current();
    assert_eq!(choice.available, vec!["a @ y @ z", "b @ x"]);
    assert_eq!(choice.choice, 1);
    choice.choice = 5;
    assert_eq!(choice.current(), None);
    assert!(choice.delete_target(&toml).is_none());
}

#[test]
fn deleting_the_selected_chat() {
    let mut choice = ChatChoice::from_sections(vec!["a @ y @ z".to_string(), "c".to_string()]);
    let mut toml = TomlConfig::empty();
    toml.chats.push(("c".to_string(), section(None)));
    toml.chats.push(("a @ y @ z".to_string(), section(Some("al"))));
    toml.chats.push(("a @ y @ z".to_string(), section(Some("bo"))));
    assert_eq!(choice.delete(&mut toml), Some("al__z".to_string()));
    assert_eq!(toml.chats.len(), 2);
    assert_eq!(toml.chats[0].0, "c");
    assert_eq!(toml.chats[1].0, "a @ y @ z");
    assert_eq!(toml.chats[1].1.user_name, Some("bo".to_string()));
    assert_eq!(choice.available, vec!["c"]);
    assert_eq!(choice.choice, 0);
    choice.choice = 3;
    assert_eq!(choice.delete(&mut toml), None);
    assert_eq!(toml.chats.len(), 2);
}
