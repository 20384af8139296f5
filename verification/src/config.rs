//! The settings of hubs, daemons and tab marks.
use crate::collections::TextMap;
use vstd::prelude::*;

verus! {

/// A hub, reached by a pairing code or over ssh.
#[derive(Debug)]
pub struct OrcaRuntime {
    pub name: String,
    pub pairing_code: String,
    pub ssh: String,
}

impl OrcaRuntime {
    /// A hub of which only the name is set.
    pub fn named(name: String) -> (r: OrcaRuntime)
        ensures
            r.name@ == name@,
            r.pairing_code@ == ""@,
            r.ssh@ == ""@,
    {
        OrcaRuntime { name, pairing_code: "".to_owned(), ssh: "".to_owned() }
    }
}

/// A daemon, reached by a pairing offer or at an endpoint.
#[derive(Debug)]
pub struct PaseoDaemon {
    pub name: String,
    pub pairing_offer_url: Option<String>,
    pub local_endpoint: Option<String>,
    pub use_tls: bool,
    pub password: Option<String>,
    pub connect_automatically: bool,
}

impl PaseoDaemon {
    /// A daemon of which only the name is set.
    pub fn named(name: String) -> (r: PaseoDaemon)
        ensures
            r.name@ == name@,
            r.pairing_offer_url is None,
            r.local_endpoint is None,
            !r.use_tls,
            r.password is None,
            !r.connect_automatically,
    {
        PaseoDaemon {
            name,
            pairing_offer_url: None,
            local_endpoint: None,
            use_tls: false,
            password: None,
            connect_automatically: false,
        }
    }
}

/// A color: red, green and blue.
#[derive(Clone, Copy, Debug, PartialEq, Eq, Structural)]
pub struct Rgb {
    pub red: u8,
    pub green: u8,
    pub blue: u8,
}

/// How a tab is marked that wants attention: the variable of its panes that says so, how long the
/// mark fades in and out, and its color for each value of the variable.
#[derive(Debug)]
pub struct TabAttention {
    pub var: String,
    pub fade_in_duration_ms: u64,
    pub fade_out_duration_ms: u64,
    pub colors: TextMap<Rgb>,
}

/// The variable that says what a pane wants.
pub fn default_attention_var() -> (r: String)
    ensures
        r@ == "claude_status"@,
{
    "claude_status".to_owned()
}

/// How long a mark fades in, in milliseconds.
pub fn default_fade_in_ms() -> (r: u64)
    ensures
        r == 400,
{
    400
}

/// How long a mark fades out, in milliseconds.
pub fn default_fade_out_ms() -> (r: u64)
    ensures
        r == 400,
{
    400
}

/// The colors of marks, by value.
pub open spec fn attention_colors() -> Map<Seq<char>, Rgb> {
    Map::empty().insert("waiting"@, Rgb { red: 240, green: 223, blue: 175 }).insert(
        "approval"@,
        Rgb { red: 204, green: 147, blue: 147 },
    )
}

/// The colors of marks, by value.
pub fn default_attention_colors() -> (r: TextMap<Rgb>)
    ensures
        r@ == attention_colors(),
{
    let mut map: TextMap<Rgb> = TextMap::new();
    map.insert("waiting", Rgb { red: 240, green: 223, blue: 175 });
    map.insert("approval", Rgb { red: 204, green: 147, blue: 147 });
    map
}

impl Default for TabAttention {
    fn default() -> (r: TabAttention)
        ensures
            r.var@ == "claude_status"@,
            r.fade_in_duration_ms == 400,
            r.fade_out_duration_ms == 400,
            r.colors@ == attention_colors(),
    {
        TabAttention {
            var: default_attention_var(),
            fade_in_duration_ms: default_fade_in_ms(),
            fade_out_duration_ms: default_fade_out_ms(),
            colors: default_attention_colors(),
        }
    }
}

} // verus!
