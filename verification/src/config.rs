//! Configuration: the look of the terminal interface and the identity each chat runs under,
//! read from a TOML file with chat sections that override the global settings.
use vstd::prelude::*;
use crate::connection::peer::SockAddr;
use crate::crypto::{hex_decode, hex_decoded_text, hex_encode, hex_encoded, lemma_hex_roundtrip};
use crate::text::{chars_of, last_piece, last_piece_start, push_char, sort_texts, string_of, texts, texts_sorted};
use crate::auth::ascii_lower;

verus! {

/// A colour of the interface.
#[derive(Debug, Clone, Copy, PartialEq, Eq, Structural)]
pub enum Color {
    Reset,
    White,
    DarkGray,
    Cyan,
    Green,
    Red,
    Rgb(u8, u8, u8),
}

/// The line style of the interface's borders.
#[derive(Debug, Clone, Copy, PartialEq, Eq, Structural)]
pub enum Border {
    Plain,
    Rounded,
    Double,
    Thick,
}

/// The border style a configuration names when it names none.
pub fn default_border_style() -> (res: String)
    ensures
        res@ == seq!['R', 'o', 'u', 'n', 'd', 'e', 'd'],
{
    let s = "Rounded";
    proof {
        reveal_strlit("Rounded");
    }
    s.to_owned()
}

/// The height (in lines) the input box grows to when a configuration names none.
pub fn default_max_height() -> (res: u16)
    ensures
        res == 5,
{
    5
}

/// An optional colour of a configuration file, as red, green and blue.
pub type Rgb = Option<(u8, u8, u8)>;

/// The settings of one chat section: its identity, and overrides of the global look.
#[derive(Debug, Clone)]
pub struct ChatConfig {
    pub user_id: Option<u64>,
    pub user_name: Option<String>,
    pub rendezvous: Option<SockAddr>,
    pub prvkey: Option<String>,
    pub border_style: Option<String>,
    pub max_height: Option<u16>,
    pub bg_color: Rgb,
    pub text_color: Rgb,
    pub border_color: Rgb,
    pub normal_mode: Rgb,
    pub insert_mode: Rgb,
    pub timeout_mode: Rgb,
    pub users_color: Rgb,
    pub my_color: Rgb,
    pub system_color: Rgb,
    pub online_color: Rgb,
}

/// A configuration file: the global look, and the chat sections by their names.
#[derive(Debug, Clone)]
pub struct TomlConfig {
    pub border_style: String,
    pub max_height: u16,
    pub bg_color: Rgb,
    pub text_color: Rgb,
    pub border_color: Rgb,
    pub normal_mode: Rgb,
    pub insert_mode: Rgb,
    pub timeout_mode: Rgb,
    pub users_color: Rgb,
    pub my_color: Rgb,
    pub system_color: Rgb,
    pub online_color: Rgb,
    pub chats: Vec<(String, ChatConfig)>,
}

/// The configuration a chat runs with.
#[derive(Debug, Clone)]
pub struct Config {
    pub user_id: Option<u64>,
    pub user_name: Option<String>,
    pub rendezvous: Option<SockAddr>,
    pub prvkey: Option<[u8; 32]>,
    pub border_style: Border,
    pub max_height: u16,
    pub bg_color: Color,
    pub text_color: Color,
    pub border_color: Color,
    pub normal_mode: Color,
    pub insert_mode: Color,
    pub timeout_mode: Color,
    pub users_color: Color,
    pub my_color: Color,
    pub system_color: Color,
    pub online_color: Color,
}

/// Whether the character `c` lower-cases (`char::to_lowercase`) to the ASCII letter `w`: the
/// characters whose lower case is an ASCII letter are the ASCII letters and the Kelvin sign
/// (which lower-cases to `k`).
pub open spec fn lowers_to(c: char, w: char) -> bool {
    ascii_lower(c) == w || (c == '\u{212A}' && w == 'k')
}

/// Whether `s` lower-cases (`str::to_lowercase`) to the lower-case ASCII word `word`.
pub open spec fn lowercase_is(s: Seq<char>, word: Seq<char>) -> bool {
    s.len() == word.len() && forall|i: int| 0 <= i < s.len() ==> lowers_to(#[trigger] s[i], word[i])
}

/// The border style a name stands for, compared without regard to case; any other name
/// gives rounded borders.
pub open spec fn border_of(s: Seq<char>) -> Border {
    if lowercase_is(s, seq!['p', 'l', 'a', 'i', 'n']) {
        Border::Plain
    } else if lowercase_is(s, seq!['t', 'h', 'i', 'c', 'k']) {
        Border::Thick
    } else if lowercase_is(s, seq!['d', 'o', 'u', 'b', 'l', 'e']) {
        Border::Double
    } else {
        Border::Rounded
    }
}

/// Whether `s` lower-cases to `word` (see `lowercase_is`).
fn lowercase_equals(s: &Vec<char>, word: &Vec<char>) -> (res: bool)
    ensures
        res == lowercase_is(s@, word@),
{
    if s.len() != word.len() {
        return false;
    }
    let mut i: usize = 0;
    while i < s.len()
        invariant
            s@.len() == word@.len(),
            i <= s@.len(),
            forall|j: int| 0 <= j < i ==> lowers_to(#[trigger] s@[j], word@[j]),
        decreases s@.len() - i,
    {
        let c = s[i];
        let lower = if 'A' <= c && c <= 'Z' {
            crate::auth::char_from_upper(c)
        } else {
            c
        };
        if !(lower == word[i] || (c == '\u{212A}' && word[i] == 'k')) {
            return false;
        }
        i = i + 1;
    }
    true
}

/// The border style a name stands for (see `border_of`).
pub fn parse_border_style(s: &str) -> (res: Border)
    ensures
        res == border_of(s@),
{
    let v = crate::text::chars_of(s);
    let plain = vec!['p', 'l', 'a', 'i', 'n'];
    let thick = vec!['t', 'h', 'i', 'c', 'k'];
    let double = vec!['d', 'o', 'u', 'b', 'l', 'e'];
    assert(plain@ =~= seq!['p', 'l', 'a', 'i', 'n']);
    assert(thick@ =~= seq!['t', 'h', 'i', 'c', 'k']);
    assert(double@ =~= seq!['d', 'o', 'u', 'b', 'l', 'e']);
    if lowercase_equals(&v, &plain) {
        Border::Plain
    } else if lowercase_equals(&v, &thick) {
        Border::Thick
    } else if lowercase_equals(&v, &double) {
        Border::Double
    } else {
        Border::Rounded
    }
}

/// Views an optional text.
pub open spec fn opt_text(o: Option<String>) -> Option<Seq<char>> {
    match o {
        Some(t) => Some(t@),
        None => None,
    }
}

/// A copy of an optional text.
fn copy_text(o: &Option<String>) -> (res: Option<String>)
    ensures
        opt_text(res) == opt_text(*o),
{
    match o {
        Some(t) => Some(t.clone()),
        None => None,
    }
}

/// The section of `chats` named `name`: the first one of that name.
pub open spec fn section_of(chats: Seq<(String, ChatConfig)>, name: Seq<char>) -> Option<ChatConfig>
    decreases chats.len(),
{
    if chats.len() == 0 {
        None
    } else if chats[0].0@ == name {
        Some(chats[0].1)
    } else {
        section_of(chats.drop_first(), name)
    }
}

/// The section a chat runs under: the one of its name, when it has a name.
pub open spec fn chosen_section(toml: TomlConfig, chat_name: Option<Seq<char>>) -> Option<ChatConfig> {
    match chat_name {
        Some(n) => section_of(toml.chats@, n),
        None => None,
    }
}

/// A colour set at two levels: the chat's setting, else the global one, else the default.
pub open spec fn layered_color(chat: Option<Rgb>, global: Rgb, default: Color) -> Color {
    let chosen = match chat {
        Some(Some(c)) => Some(c),
        _ => global,
    };
    match chosen {
        Some((r, g, b)) => Color::Rgb(r, g, b),
        None => default,
    }
}

/// The colour set at two levels (see `layered_color`).
fn layer_color(chat: Option<Rgb>, global: Rgb, default: Color) -> (res: Color)
    ensures
        res == layered_color(chat, global, default),
{
    let chosen = match chat {
        Some(Some(c)) => Some(c),
        _ => global,
    };
    match chosen {
        Some((r, g, b)) => Color::Rgb(r, g, b),
        None => default,
    }
}

/// The 32-byte secret that hex text stands for.
pub open spec fn secret_of(text: Seq<char>) -> Option<Seq<u8>> {
    match hex_decoded_text(text) {
        Some(b) => if b.len() == 32 {
            Some(b)
        } else {
            None
        },
        None => None,
    }
}

/// Views an optional 32-byte array.
pub open spec fn opt_bytes32(o: Option<[u8; 32]>) -> Option<Seq<u8>> {
    match o {
        Some(a) => Some(a@),
        None => None,
    }
}

/// Reads the secret that hex text stands for.
fn read_secret(text: &String) -> (res: Option<[u8; 32]>)
    ensures
        opt_bytes32(res) == secret_of(text@),
{
    match hex_decode(text.as_str()) {
        Some(b) => if b.len() == 32 {
            Some(crate::connection::rendezvous::to_array32(&b))
        } else {
            None
        },
        None => None,
    }
}

/// Finds the section named `name`.
fn find_section(chats: &Vec<(String, ChatConfig)>, name: &str) -> (res: Option<usize>)
    ensures
        match section_of(chats@, name@) {
            Some(c) => res matches Some(i) && i < chats@.len() && chats@[i as int].1 == c,
            None => res is None,
        },
        res matches Some(i) ==> chats@[i as int].0@ == name@ && forall|j: int| 0 <= j < i ==> (#[trigger] chats@[j]).0@ != name@,
{
    let wanted = name.to_owned();
    let mut i: usize = 0;
    assert(chats@.subrange(0, chats@.len() as int) =~= chats@);
    while i < chats.len()
        invariant
            i <= chats@.len(),
            wanted@ == name@,
            section_of(chats@.subrange(i as int, chats@.len() as int), name@) == section_of(chats@, name@),
            forall|j: int| 0 <= j < i ==> (#[trigger] chats@[j]).0@ != name@,
        decreases chats@.len() - i,
    {
        let ghost rest = chats@.subrange(i as int, chats@.len() as int);
        assert(rest.drop_first() =~= chats@.subrange(i + 1, chats@.len() as int));
        if chats[i].0 == wanted {
            return Some(i);
        }
        i = i + 1;
    }
    None
}

impl Config {
    /// The configuration used when no file can be read: user `Me`, rounded borders, inputs of up
    /// to five lines, and the default colours.
    pub fn default() -> (res: Self)
        ensures
            res.user_id is None,
            opt_text(res.user_name) == Some(seq!['M', 'e']),
            res.rendezvous is None,
            res.prvkey is None,
            res.border_style == Border::Rounded,
            res.max_height == 5,
            res.bg_color == Color::Reset,
            res.text_color == Color::White,
            res.border_color == Color::DarkGray,
            res.normal_mode == Color::Rgb(0, 212, 255),
            res.insert_mode == Color::Rgb(255, 102, 204),
            res.timeout_mode == Color::Rgb(255, 49, 49),
            res.users_color == Color::Cyan,
            res.my_color == Color::Green,
            res.system_color == Color::DarkGray,
            res.online_color == Color::Green,
    {
        let me = "Me";
        proof {
            reveal_strlit("Me");
        }
        Config {
            user_id: None,
            user_name: Some(me.to_owned()),
            rendezvous: None,
            prvkey: None,
            border_style: Border::Rounded,
            max_height: 5,
            bg_color: Color::Reset,
            text_color: Color::White,
            border_color: Color::DarkGray,
            normal_mode: Color::Rgb(0, 212, 255),
            insert_mode: Color::Rgb(255, 102, 204),
            timeout_mode: Color::Rgb(255, 49, 49),
            users_color: Color::Cyan,
            my_color: Color::Green,
            system_color: Color::DarkGray,
            online_color: Color::Green,
        }
    }

    /// The colour warnings are shown in: red, or orange when the user's own colour is already
    /// a red (red channel 120 to 255, green 0 to 60), so that warnings stay distinguishable.
    pub fn warn_color(&self) -> (res: Color)
        ensures
            res == (match self.my_color {
                Color::Rgb(r, g, _) => if 120 <= r && g <= 60 {
                    Color::Rgb(255, 100, 0)
                } else {
                    Color::Red
                },
                _ => Color::Red,
            }),
    {
        match self.my_color {
            Color::Rgb(r, g, _) => if 120 <= r && g <= 60 {
                Color::Rgb(255, 100, 0)
            } else {
                Color::Red
            },
            _ => Color::Red,
        }
    }
}

/// A chat setting, when the chat has a section.
pub open spec fn chat_rgb(c: Option<ChatConfig>, field: spec_fn(ChatConfig) -> Rgb) -> Option<Rgb> {
    match c {
        Some(cc) => Some(field(cc)),
        None => None,
    }
}

/// Whether `res` is the configuration of the chat named `chat_name` in `toml`: its identity
/// comes from its section (the secret read from hex, when it reads as 32 bytes), and each
/// setting of the look from the section, else from the global settings, else the default.
pub open spec fn configured(res: Config, toml: TomlConfig, chat_name: Option<Seq<char>>) -> bool {
    let c = chosen_section(toml, chat_name);
    &&& res.user_id == (match c { Some(cc) => cc.user_id, None => None })
    &&& opt_text(res.user_name) == (match c { Some(cc) => opt_text(cc.user_name), None => None })
    &&& res.rendezvous == (match c { Some(cc) => cc.rendezvous, None => None })
    &&& opt_bytes32(res.prvkey) == (match c {
        Some(cc) => match cc.prvkey {
            Some(t) => secret_of(t@),
            None => None,
        },
        None => None,
    })
    &&& res.border_style == border_of(match c {
        Some(cc) => match cc.border_style {
            Some(b) => b@,
            None => toml.border_style@,
        },
        None => toml.border_style@,
    })
    &&& res.max_height == (match c {
        Some(cc) => match cc.max_height {
            Some(h) => h,
            None => toml.max_height,
        },
        None => toml.max_height,
    })
    &&& res.bg_color == layered_color(chat_rgb(c, |cc: ChatConfig| cc.bg_color), toml.bg_color, Color::Reset)
    &&& res.text_color == layered_color(chat_rgb(c, |cc: ChatConfig| cc.text_color), toml.text_color, Color::White)
    &&& res.border_color == layered_color(chat_rgb(c, |cc: ChatConfig| cc.border_color), toml.border_color, Color::DarkGray)
    &&& res.normal_mode == layered_color(chat_rgb(c, |cc: ChatConfig| cc.normal_mode), toml.normal_mode, Color::Rgb(0, 212, 255))
    &&& res.insert_mode == layered_color(chat_rgb(c, |cc: ChatConfig| cc.insert_mode), toml.insert_mode, Color::Rgb(255, 102, 204))
    &&& res.timeout_mode == layered_color(chat_rgb(c, |cc: ChatConfig| cc.timeout_mode), toml.timeout_mode, Color::Rgb(255, 49, 49))
    &&& res.users_color == layered_color(chat_rgb(c, |cc: ChatConfig| cc.users_color), toml.users_color, Color::Cyan)
    &&& res.my_color == layered_color(chat_rgb(c, |cc: ChatConfig| cc.my_color), toml.my_color, Color::Green)
    &&& res.system_color == layered_color(chat_rgb(c, |cc: ChatConfig| cc.system_color), toml.system_color, Color::DarkGray)
    &&& res.online_color == layered_color(chat_rgb(c, |cc: ChatConfig| cc.online_color), toml.online_color, Color::Green)
}

/// Views an optional string slice.
pub open spec fn opt_str(o: Option<&str>) -> Option<Seq<char>> {
    match o {
        Some(t) => Some(t@),
        None => None,
    }
}

impl Config {
    /// The configuration of the chat named `chat_name` (see `configured`): settings of its
    /// section win over the global ones, which win over the defaults.
    pub fn from_toml(toml: &TomlConfig, chat_name: Option<&str>) -> (res: Self)
        ensures
            configured(res, *toml, opt_str(chat_name)),
    {
        let idx = match chat_name {
            Some(n) => find_section(&toml.chats, n),
            None => None,
        };
        match idx {
            None => {
                let res = Config {
                    user_id: None,
                    user_name: None,
                    rendezvous: None,
                    prvkey: None,
                    border_style: parse_border_style(toml.border_style.as_str()),
                    max_height: toml.max_height,
                    bg_color: layer_color(None, toml.bg_color, Color::Reset),
                    text_color: layer_color(None, toml.text_color, Color::White),
                    border_color: layer_color(None, toml.border_color, Color::DarkGray),
                    normal_mode: layer_color(None, toml.normal_mode, Color::Rgb(0, 212, 255)),
                    insert_mode: layer_color(None, toml.insert_mode, Color::Rgb(255, 102, 204)),
                    timeout_mode: layer_color(None, toml.timeout_mode, Color::Rgb(255, 49, 49)),
                    users_color: layer_color(None, toml.users_color, Color::Cyan),
                    my_color: layer_color(None, toml.my_color, Color::Green),
                    system_color: layer_color(None, toml.system_color, Color::DarkGray),
                    online_color: layer_color(None, toml.online_color, Color::Green),
                };
                res
            },
            Some(i) => {
                let c = &toml.chats[i].1;
                let prvkey = match &c.prvkey {
                    Some(t) => read_secret(t),
                    None => None,
                };
                let border = match &c.border_style {
                    Some(b) => parse_border_style(b.as_str()),
                    None => parse_border_style(toml.border_style.as_str()),
                };
                let max_height = match c.max_height {
                    Some(h) => h,
                    None => toml.max_height,
                };
                Config {
                    user_id: c.user_id,
                    user_name: copy_text(&c.user_name),
                    rendezvous: c.rendezvous,
                    prvkey,
                    border_style: border,
                    max_height,
                    bg_color: layer_color(Some(c.bg_color), toml.bg_color, Color::Reset),
                    text_color: layer_color(Some(c.text_color), toml.text_color, Color::White),
                    border_color: layer_color(Some(c.border_color), toml.border_color, Color::DarkGray),
                    normal_mode: layer_color(Some(c.normal_mode), toml.normal_mode, Color::Rgb(0, 212, 255)),
                    insert_mode: layer_color(Some(c.insert_mode), toml.insert_mode, Color::Rgb(255, 102, 204)),
                    timeout_mode: layer_color(Some(c.timeout_mode), toml.timeout_mode, Color::Rgb(255, 49, 49)),
                    users_color: layer_color(Some(c.users_color), toml.users_color, Color::Cyan),
                    my_color: layer_color(Some(c.my_color), toml.my_color, Color::Green),
                    system_color: layer_color(Some(c.system_color), toml.system_color, Color::DarkGray),
                    online_color: layer_color(Some(c.online_color), toml.online_color, Color::Green),
                }
            },
        }
    }
}

/// Why a chat could not be saved.
#[derive(Debug, Clone, Copy, PartialEq, Eq, Structural)]
pub enum ConfigError {
    /// A section of that name already exists.
    ChatExists,
    /// The rendezvous address does not read as a socket address.
    BadRendezvous,
}

/// The name of a chat's section: `user @ chat`.
pub open spec fn display_key(user_name: Seq<char>, chat_name: Seq<char>) -> Seq<char> {
    user_name + seq![' ', '@', ' '] + chat_name
}

/// Whether `c` is the section a chat is saved with: its identity, no overrides of the look.
pub open spec fn saved_section(c: ChatConfig, user_id: u64, user_name: Seq<char>, rendezvous: SockAddr, prvkey: Seq<u8>) -> bool {
    &&& c.user_id == Some(user_id)
    &&& opt_text(c.user_name) == Some(user_name)
    &&& c.rendezvous == Some(rendezvous)
    &&& opt_text(c.prvkey) == Some(hex_encoded(prvkey))
    &&& c.border_style is None
    &&& c.max_height is None
    &&& c.bg_color is None && c.text_color is None && c.border_color is None
    &&& c.normal_mode is None && c.insert_mode is None && c.timeout_mode is None
    &&& c.users_color is None && c.my_color is None && c.system_color is None && c.online_color is None
}

/// Whether two configuration files agree on everything but their chat sections.
pub open spec fn same_globals(a: TomlConfig, b: TomlConfig) -> bool {
    &&& a.border_style@ == b.border_style@
    &&& a.max_height == b.max_height
    &&& a.bg_color == b.bg_color && a.text_color == b.text_color && a.border_color == b.border_color
    &&& a.normal_mode == b.normal_mode && a.insert_mode == b.insert_mode && a.timeout_mode == b.timeout_mode
    &&& a.users_color == b.users_color && a.my_color == b.my_color && a.system_color == b.system_color
    &&& a.online_color == b.online_color
}

/// A section appended under a new name is the section of that name.
proof fn lemma_section_of_push(chats: Seq<(String, ChatConfig)>, entry: (String, ChatConfig), name: Seq<char>)
    requires
        section_of(chats, name) is None,
        entry.0@ == name,
    ensures
        section_of(chats.push(entry), name) == Some(entry.1),
    decreases chats.len(),
{
    if chats.len() > 0 {
        assert(chats.push(entry).drop_first() =~= chats.drop_first().push(entry));
        lemma_section_of_push(chats.drop_first(), entry, name);
    }
}

impl TomlConfig {
    /// The configuration file used when there is none: rounded borders, inputs of up to five
    /// lines, no colours set, no chats.
    pub fn empty() -> (res: Self)
        ensures
            res.border_style@ == seq!['R', 'o', 'u', 'n', 'd', 'e', 'd'],
            res.max_height == 5,
            res.bg_color is None && res.text_color is None && res.border_color is None,
            res.normal_mode is None && res.insert_mode is None && res.timeout_mode is None,
            res.users_color is None && res.my_color is None && res.system_color is None,
            res.online_color is None,
            res.chats@.len() == 0,
    {
        TomlConfig {
            border_style: default_border_style(),
            max_height: default_max_height(),
            bg_color: None,
            text_color: None,
            border_color: None,
            normal_mode: None,
            insert_mode: None,
            timeout_mode: None,
            users_color: None,
            my_color: None,
            system_color: None,
            online_color: None,
            chats: Vec::new(),
        }
    }
}

/// The name of a chat's section (see `display_key`).
pub fn section_name(user_name: &str, chat_name: &str) -> (res: String)
    ensures
        res@ == display_key(user_name@, chat_name@),
{
    let mut key = user_name.to_owned();
    push_char(&mut key, ' ');
    push_char(&mut key, '@');
    push_char(&mut key, ' ');
    key.append(chat_name);
    assert(key@ =~= display_key(user_name@, chat_name@));
    key
}

impl Config {
    /// Saves a new chat (`save`): a section named `user @ chat` with the user's id and name,
    /// the rendezvous address and the secret in hex, and no overrides of the look. Refused
    /// when such a section exists, then when the address did not read (`None`); the file is
    /// then unchanged. The configuration returned is the one the chat now loads with.
    pub fn save(
        toml: &mut TomlConfig,
        chat_name: &str,
        user_name: &str,
        rendezvous: Option<SockAddr>,
        user_id: u64,
        prvkey: &[u8; 32],
    ) -> (res: Result<Config, ConfigError>)
        ensures
            section_of(old(toml).chats@, display_key(user_name@, chat_name@)) is Some ==> res == Err::<Config, ConfigError>(
                ConfigError::ChatExists,
            ) && *final(toml) == *old(toml),
            section_of(old(toml).chats@, display_key(user_name@, chat_name@)) is None && rendezvous is None ==> res
                == Err::<Config, ConfigError>(ConfigError::BadRendezvous) && *final(toml) == *old(toml),
            section_of(old(toml).chats@, display_key(user_name@, chat_name@)) is None && rendezvous is Some ==> {
                &&& res is Ok
                &&& same_globals(*final(toml), *old(toml))
                &&& final(toml).chats@.len() == old(toml).chats@.len() + 1
                &&& final(toml).chats@.drop_last() == old(toml).chats@
                &&& final(toml).chats@.last().0@ == display_key(user_name@, chat_name@)
                &&& saved_section(final(toml).chats@.last().1, user_id, user_name@, rendezvous->0, prvkey@)
                &&& configured(res->Ok_0, *final(toml), Some(display_key(user_name@, chat_name@)))
                &&& res->Ok_0.prvkey == Some(*prvkey)
            },
    {
        let key = section_name(user_name, chat_name);
        if find_section(&toml.chats, key.as_str()).is_some() {
            return Err(ConfigError::ChatExists);
        }
        let addr = match rendezvous {
            Some(a) => a,
            None => return Err(ConfigError::BadRendezvous),
        };
        let section = ChatConfig {
            user_id: Some(user_id),
            user_name: Some(user_name.to_owned()),
            rendezvous: Some(addr),
            prvkey: Some(hex_encode(prvkey.as_slice())),
            border_style: None,
            max_height: None,
            bg_color: None,
            text_color: None,
            border_color: None,
            normal_mode: None,
            insert_mode: None,
            timeout_mode: None,
            users_color: None,
            my_color: None,
            system_color: None,
            online_color: None,
        };
        let ghost before = toml.chats@;
        let entry = (key, section);
        proof {
            lemma_section_of_push(before, entry, display_key(user_name@, chat_name@));
            lemma_hex_roundtrip(prvkey@);
        }
        toml.chats.push(entry);
        assert(toml.chats@.drop_last() =~= before);
        Ok(Config {
            user_id: Some(user_id),
            user_name: Some(user_name.to_owned()),
            rendezvous: Some(addr),
            prvkey: Some(*prvkey),
            border_style: parse_border_style(toml.border_style.as_str()),
            max_height: toml.max_height,
            bg_color: layer_color(Some(None), toml.bg_color, Color::Reset),
            text_color: layer_color(Some(None), toml.text_color, Color::White),
            border_color: layer_color(Some(None), toml.border_color, Color::DarkGray),
            normal_mode: layer_color(Some(None), toml.normal_mode, Color::Rgb(0, 212, 255)),
            insert_mode: layer_color(Some(None), toml.insert_mode, Color::Rgb(255, 102, 204)),
            timeout_mode: layer_color(Some(None), toml.timeout_mode, Color::Rgb(255, 49, 49)),
            users_color: layer_color(Some(None), toml.users_color, Color::Cyan),
            my_color: layer_color(Some(None), toml.my_color, Color::Green),
            system_color: layer_color(Some(None), toml.system_color, Color::DarkGray),
            online_color: layer_color(Some(None), toml.online_color, Color::Green),
        })
    }
}

/// A saved chat loads back as what was saved: the configuration `from_toml` gives for the new
/// section is the one `save` returned.
pub proof fn law_saved_chat_loads_back(res: Config, loaded: Config, toml: TomlConfig, key: Seq<char>)
    requires
        configured(res, toml, Some(key)),
        configured(loaded, toml, Some(key)),
    ensures
        res.user_id == loaded.user_id,
        opt_text(res.user_name) == opt_text(loaded.user_name),
        res.rendezvous == loaded.rendezvous,
        res.prvkey == loaded.prvkey,
        res.border_style == loaded.border_style,
        res.max_height == loaded.max_height,
        res.bg_color == loaded.bg_color && res.text_color == loaded.text_color,
        res.border_color == loaded.border_color && res.normal_mode == loaded.normal_mode,
        res.insert_mode == loaded.insert_mode && res.timeout_mode == loaded.timeout_mode,
        res.users_color == loaded.users_color && res.my_color == loaded.my_color,
        res.system_color == loaded.system_color && res.online_color == loaded.online_color,
{
    if res.prvkey is Some && loaded.prvkey is Some {
        assert(res.prvkey->0@ =~= loaded.prvkey->0@);
    }
}

/// The chats the home screen offers, and which of them is selected.
pub struct ChatChoice {
    pub available: Vec<String>,
    pub choice: usize,
}

/// The stem of a chat's database file, `user__chat`: the chat is what follows the last
/// ` @ ` of the section name, the user is the section's user name (else the chat's name).
pub open spec fn db_stem_of(section: Seq<char>, user_name: Option<Seq<char>>) -> Seq<char> {
    let chat = last_piece(section, seq![' ', '@', ' ']);
    let user = match user_name {
        Some(u) => u,
        None => chat,
    };
    user + seq!['_', '_'] + chat
}

impl ChatChoice {
    /// The choice among the sections of a configuration file (`load`): their names in
    /// lexicographic order, the first one selected.
    pub fn from_sections(names: Vec<String>) -> (res: Self)
        ensures
            texts_sorted(texts(res.available@)),
            texts(res.available@).to_multiset() == texts(names@).to_multiset(),
            res.choice == 0,
    {
        ChatChoice { available: sort_texts(names), choice: 0 }
    }

    /// The selected chat's section name, if the selection points at one.
    pub fn current(&self) -> (res: Option<&str>)
        ensures
            self.choice < self.available@.len() ==> (res matches Some(t) && t@ == self.available@[self.choice as int]@),
            self.choice >= self.available@.len() ==> res is None,
    {
        if self.choice < self.available.len() {
            Some(self.available[self.choice].as_str())
        } else {
            None
        }
    }

    /// What deleting the selected chat removes (`delete`): the index of its section in `toml`
    /// and the stem of its database file; nothing when no chat is selected or it has no section.
    pub fn delete_target(&self, toml: &TomlConfig) -> (res: Option<(usize, String)>)
        ensures
            self.choice >= self.available@.len() ==> res is None,
            self.choice < self.available@.len() ==> match section_of(toml.chats@, self.available@[self.choice as int]@) {
                None => res is None,
                Some(c) => (res matches Some((i, stem)) && i < toml.chats@.len() && toml.chats@[i as int].1 == c
                    && stem@ == db_stem_of(self.available@[self.choice as int]@, opt_text(c.user_name))),
            },
            res matches Some((i, _)) ==> toml.chats@[i as int].0@ == self.available@[self.choice as int]@
                && forall|j: int| 0 <= j < i ==> (#[trigger] toml.chats@[j]).0@ != self.available@[self.choice as int]@,
    {
        let name = match self.current() {
            Some(n) => n,
            None => return None,
        };
        let i = match find_section(&toml.chats, name) {
            Some(i) => i,
            None => return None,
        };
        let v = chars_of(name);
        let sep = vec![' ', '@', ' '];
        assert(sep@ =~= seq![' ', '@', ' ']);
        assert(v@.subrange(0, v@.len() as int) =~= v@);
        let start = last_piece_start(&v, 0, v.len(), &sep);
        let chat = string_of(&v, start, v.len());
        let mut stem = match &toml.chats[i].1.user_name {
            Some(u) => u.clone(),
            None => string_of(&v, start, v.len()),
        };
        push_char(&mut stem, '_');
        push_char(&mut stem, '_');
        stem.append(chat.as_str());
        Some((i, stem))
    }

    /// Drops the selected chat from the choice once it is deleted; the selection stays where
    /// it was, or moves to the last chat when it was past the end.
    pub fn forget_current(&mut self)
        requires
            old(self).choice < old(self).available@.len(),
        ensures
            final(self).available@ == old(self).available@.remove(old(self).choice as int),
            final(self).choice == (if old(self).choice < final(self).available@.len() {
                old(self).choice as int
            } else if final(self).available@.len() == 0 {
                0
            } else {
                final(self).available@.len() - 1
            }),
    {
        self.available.remove(self.choice);
        let last = if self.available.len() == 0 { 0 } else { self.available.len() - 1 };
        if self.choice > last {
            self.choice = last;
        }
    }

    /// Deletes the selected chat from the configuration (`delete`): its section (the first of
    /// its name) leaves `toml`, the chat leaves the choice (see `forget_current`), and the stem
    /// of its database file is returned for removal. When no chat is selected or it has no
    /// section, nothing changes and nothing is returned.
    pub fn delete(&mut self, toml: &mut TomlConfig) -> (res: Option<String>)
        ensures
            old(self).choice >= old(self).available@.len() || section_of(
                old(toml).chats@,
                old(self).available@[old(self).choice as int]@,
            ) is None ==> res is None && *final(toml) == *old(toml) && *final(self) == *old(self),
            old(self).choice < old(self).available@.len() && section_of(
                old(toml).chats@,
                old(self).available@[old(self).choice as int]@,
            ) is Some ==> ({
                let sel = old(self).available@[old(self).choice as int]@;
                &&& exists|i: int|
                    0 <= i < old(toml).chats@.len() && (#[trigger] old(toml).chats@[i]).0@ == sel && (forall|j: int|
                        0 <= j < i ==> (#[trigger] old(toml).chats@[j]).0@ != sel) && final(toml).chats@
                        == old(toml).chats@.remove(i) && (res matches Some(stem) && stem@ == db_stem_of(
                        sel,
                        opt_text(old(toml).chats@[i].1.user_name),
                    ))
                &&& same_globals(*final(toml), *old(toml))
                &&& final(self).available@ == old(self).available@.remove(old(self).choice as int)
                &&& final(self).choice == (if old(self).choice < final(self).available@.len() {
                    old(self).choice as int
                } else if final(self).available@.len() == 0 {
                    0
                } else {
                    final(self).available@.len() - 1
                })
            }),
    {
        match self.delete_target(toml) {
            None => None,
            Some((i, stem)) => {
                let ghost before = toml.chats@;
                toml.chats.remove(i);
                self.forget_current();
                assert(before[i as int].0@ == old(self).available@[old(self).choice as int]@);
                Some(stem)
            },
        }
    }
}

/// The chat a section is for: what follows the last ` @ ` of its name, or the whole name
/// (`name.split(" @ ").last()`).
pub fn section_chat(name: &str) -> (res: String)
    ensures
        res@ == last_piece(name@, seq![' ', '@', ' ']),
{
    let v = chars_of(name);
    let sep = vec![' ', '@', ' '];
    assert(sep@ =~= seq![' ', '@', ' ']);
    assert(v@.subrange(0, v@.len() as int) =~= v@);
    let start = last_piece_start(&v, 0, v.len(), &sep);
    string_of(&v, start, v.len())
}

} // verus!
