//! Bridge profiles: their defaults and identifiers, reading the configuration
//! (including the migration of the older single-profile format), looking
//! profiles up, and the command line that starts a bridge for a profile.
use vstd::prelude::*;
use std::time::SystemTime;
use crate::clock::{now_unix_millis, reading_millis};
use crate::text::{
    append_hex, concat_str, hex_text, is_radix_char, lemma_radix_digits_injective,
    lemma_radix_digits_shape, push_char, str_eq,
};

verus! {

/// One configured connection of the bridge to a server.
pub struct BridgeProfile {
    pub id: String,
    pub name: String,
    pub server: String,
    pub token: String,
    pub device: String,
    pub auto_start: bool,
    pub browser: bool,
    pub engine: String,
    pub headless: bool,
    pub shell: bool,
}

/// A profile as plain values.
pub struct ProfileView {
    pub id: Seq<char>,
    pub name: Seq<char>,
    pub server: Seq<char>,
    pub token: Seq<char>,
    pub device: Seq<char>,
    pub auto_start: bool,
    pub browser: bool,
    pub engine: Seq<char>,
    pub headless: bool,
    pub shell: bool,
}

impl View for BridgeProfile {
    type V = ProfileView;

    open spec fn view(&self) -> ProfileView {
        ProfileView {
            id: self.id@,
            name: self.name@,
            server: self.server@,
            token: self.token@,
            device: self.device@,
            auto_start: self.auto_start,
            browser: self.browser,
            engine: self.engine@,
            headless: self.headless,
            shell: self.shell,
        }
    }
}

/// The configuration file: every profile, in order.
pub struct MultiConfig {
    pub profiles: Vec<BridgeProfile>,
}

/// The older configuration file, which held one unnamed profile.
pub struct LegacyConfig {
    pub server: Option<String>,
    pub token: Option<String>,
    pub browser: Option<bool>,
    pub engine: Option<String>,
    pub headless: Option<bool>,
    pub shell: Option<bool>,
    pub device: Option<String>,
}

/// A sequence of strings as plain values.
pub open spec fn strings_view(v: Seq<String>) -> Seq<Seq<char>> {
    v.map_values(|s: String| s@)
}

// ───────────────────────────── defaults ─────────────────────────────

/// Name of a profile created without one.
pub fn default_name() -> (s: String)
    ensures
        s@ == "Default"@,
{
    "Default".to_owned()
}

/// Server of a profile created without one: the bridge on this machine.
pub fn default_server() -> (s: String)
    ensures
        s@ == "ws://localhost:3110/ws"@,
{
    "ws://localhost:3110/ws".to_owned()
}

/// Default of the switches that are on unless set otherwise.
pub fn default_true() -> (b: bool)
    ensures
        b,
{
    true
}

/// Browser engine of a profile created without one.
pub fn default_engine() -> (s: String)
    ensures
        s@ == "own"@,
{
    "own".to_owned()
}

// ───────────────────────────── identifiers ─────────────────────────────

/// The identifier `p_<millis in hex>_<salt in hex>`.
pub open spec fn profile_id_text(millis: nat, salt: u32) -> Seq<char> {
    seq!['p', '_'] + hex_text(millis) + seq!['_'] + hex_text(salt as nat)
}

/// Formats a profile identifier from a time in milliseconds and a random salt.
pub fn format_profile_id(millis: u128, salt: u32) -> (s: String)
    ensures
        s@ == profile_id_text(millis as nat, salt),
{
    let mut s = String::new();
    push_char(&mut s, 'p');
    push_char(&mut s, '_');
    append_hex(&mut s, millis);
    push_char(&mut s, '_');
    append_hex(&mut s, salt as u128);
    proof {
        assert(s@ =~= profile_id_text(millis as nat, salt));
    }
    s
}

/// Identifiers made at different milliseconds, or with different salts, are
/// different: an identifier determines the time and the salt it was made from.
pub proof fn lemma_profile_id_injective(m1: nat, s1: u32, m2: nat, s2: u32)
    requires
        profile_id_text(m1, s1) == profile_id_text(m2, s2),
    ensures
        m1 == m2,
        s1 == s2,
{
    let a = hex_text(m1);
    let b = hex_text(s1 as nat);
    let c = hex_text(m2);
    let d = hex_text(s2 as nat);
    lemma_radix_digits_shape(m1, 16);
    lemma_radix_digits_shape(s1 as nat, 16);
    lemma_radix_digits_shape(m2, 16);
    lemma_radix_digits_shape(s2 as nat, 16);
    let x = profile_id_text(m1, s1);
    let la: int = a.len() as int;
    let lc: int = c.len() as int;
    assert(x =~= seq!['p', '_'] + a + seq!['_'] + b);
    assert(x =~= seq!['p', '_'] + c + seq!['_'] + d);
    if a.len() < c.len() {
        assert(x[2 + la] == '_');
        assert(x[2 + la] == c[la]);
        assert(is_radix_char(c[la]));
    } else if c.len() < a.len() {
        assert(x[2 + lc] == '_');
        assert(x[2 + lc] == a[lc]);
        assert(is_radix_char(a[lc]));
    }
    assert(a =~= x.subrange(2, 2 + la));
    assert(c =~= x.subrange(2, 2 + lc));
    assert(b =~= x.skip(3 + la));
    assert(d =~= x.skip(3 + lc));
    lemma_radix_digits_injective(m1, m2, 16);
    lemma_radix_digits_injective(s1 as nat, s2 as nat, 16);
}

/// A fresh profile identifier from the current time and the random `salt`.
pub fn gen_id(salt: u32) -> (s: String)
    ensures
        exists|t: SystemTime| s@ == profile_id_text(reading_millis(t) as nat, salt),
{
    let millis = now_unix_millis();
    format_profile_id(millis, salt)
}

/// The default values of a profile with identifier `id`.
pub open spec fn default_profile_view(id: Seq<char>) -> ProfileView {
    ProfileView {
        id,
        name: "Default"@,
        server: "ws://localhost:3110/ws"@,
        token: seq![],
        device: seq![],
        auto_start: true,
        browser: true,
        engine: "own"@,
        headless: false,
        shell: false,
    }
}

impl BridgeProfile {
    /// A profile with every default value, its identifier made from the
    /// current time and the random `salt`.
    pub fn new_default(salt: u32) -> (p: BridgeProfile)
        ensures
            p@ == default_profile_view(p.id@),
            exists|t: SystemTime| p.id@ == profile_id_text(reading_millis(t) as nat, salt),
    {
        BridgeProfile {
            id: gen_id(salt),
            name: default_name(),
            server: default_server(),
            token: String::new(),
            device: String::new(),
            auto_start: true,
            browser: true,
            engine: default_engine(),
            headless: false,
            shell: false,
        }
    }
}

// ───────────────────────────── loading ─────────────────────────────

/// The profile that the older single-profile file stands for, when it names
/// a server: called "Default", started automatically, with the file's values
/// and the defaults for what the file leaves out.
pub open spec fn migrated_profile_view(legacy: &LegacyConfig, id: Seq<char>) -> Option<ProfileView> {
    match legacy.server {
        Some(server) => Some(
            ProfileView {
                id,
                name: "Default"@,
                server: server@,
                token: match legacy.token {
                    Some(t) => t@,
                    None => seq![],
                },
                device: match legacy.device {
                    Some(d) => d@,
                    None => seq![],
                },
                auto_start: true,
                browser: match legacy.browser {
                    Some(b) => b,
                    None => true,
                },
                engine: match legacy.engine {
                    Some(e) => e@,
                    None => "own"@,
                },
                headless: match legacy.headless {
                    Some(b) => b,
                    None => false,
                },
                shell: match legacy.shell {
                    Some(b) => b,
                    None => false,
                },
            },
        ),
        None => None,
    }
}

fn string_or_empty(s: Option<String>) -> (r: String)
    ensures
        r@ == match s {
            Some(t) => t@,
            None => Seq::<char>::empty(),
        },
{
    match s {
        Some(t) => t,
        None => String::new(),
    }
}

/// Turns the older single-profile file into a profile with identifier `id`;
/// `None` when that file names no server.
pub fn migrate_legacy(legacy: LegacyConfig, id: String) -> (r: Option<BridgeProfile>)
    ensures
        match r {
            Some(p) => migrated_profile_view(&legacy, id@) == Some(p@),
            None => migrated_profile_view(&legacy, id@) is None,
        },
{
    let LegacyConfig { server, token, browser, engine, headless, shell, device } = legacy;
    match server {
        Some(server) => {
            let engine = match engine {
                Some(e) => e,
                None => default_engine(),
            };
            let p = BridgeProfile {
                id,
                name: default_name(),
                server,
                token: string_or_empty(token),
                device: string_or_empty(device),
                auto_start: true,
                browser: match browser {
                    Some(b) => b,
                    None => true,
                },
                engine,
                headless: match headless {
                    Some(b) => b,
                    None => false,
                },
                shell: match shell {
                    Some(b) => b,
                    None => false,
                },
            };
            Some(p)
        },
        None => None,
    }
}

/// The older file becomes a profile exactly when it names a server. That
/// profile has the given identifier, the name "Default" and the file's
/// server, and it is always started with the application, whatever else the
/// file says. Every other setting is the file's where the file gives it, and
/// otherwise that of a fresh default profile.
pub proof fn lemma_migrated_profile(legacy: LegacyConfig, id: Seq<char>)
    ensures
        migrated_profile_view(&legacy, id) is Some <==> legacy.server is Some,
        match (migrated_profile_view(&legacy, id), legacy.server) {
            (Some(q), Some(server)) => {
                let fresh = default_profile_view(id);
                &&& q.id == id
                &&& q.name == fresh.name
                &&& q.server == server@
                &&& q.auto_start
                &&& q.token == match legacy.token {
                    Some(t) => t@,
                    None => fresh.token,
                }
                &&& q.device == match legacy.device {
                    Some(d) => d@,
                    None => fresh.device,
                }
                &&& q.browser == match legacy.browser {
                    Some(b) => b,
                    None => fresh.browser,
                }
                &&& q.engine == match legacy.engine {
                    Some(e) => e@,
                    None => fresh.engine,
                }
                &&& q.headless == match legacy.headless {
                    Some(b) => b,
                    None => fresh.headless,
                }
                &&& q.shell == match legacy.shell {
                    Some(b) => b,
                    None => fresh.shell,
                }
            },
            _ => true,
        },
{
}

/// The configuration to use, given what the configuration file parsed as.
///
/// `multi` is the file read in the current format, `legacy` the file read in
/// the older single-profile format (`None` where it does not parse so).
/// A current-format file with at least one profile is used as it is.
/// Otherwise an older file that names a server becomes one profile with the
/// identifier `fresh_id`, and the returned flag asks for the result to be
/// written back. Otherwise the configuration is empty.
pub fn resolve_config(
    multi: Option<MultiConfig>,
    legacy: Option<LegacyConfig>,
    fresh_id: String,
) -> (r: (MultiConfig, bool))
    ensures
        ({
            let (cfg, save) = r;
            match multi {
                Some(m) if m.profiles@.len() > 0 => cfg == m && !save,
                _ => match legacy {
                    Some(l) if l.server is Some => {
                        &&& save
                        &&& cfg.profiles@.len() == 1
                        &&& migrated_profile_view(&l, fresh_id@) == Some(cfg.profiles@[0]@)
                    },
                    _ => cfg.profiles@.len() == 0 && !save,
                },
            }
        }),
{
    match multi {
        Some(m) => {
            if m.profiles.len() > 0 {
                return (m, false);
            }
        },
        None => {},
    }
    match legacy {
        Some(l) => {
            if l.server.is_some() {
                let p = migrate_legacy(l, fresh_id);
                match p {
                    Some(p) => {
                        let mut profiles: Vec<BridgeProfile> = Vec::new();
                        profiles.push(p);
                        return (MultiConfig { profiles }, true);
                    },
                    None => {
                        proof {
                            assert(false);
                        }
                    },
                }
            }
        },
        None => {},
    }
    (MultiConfig { profiles: Vec::new() }, false)
}

// ───────────────────────────── lookup ─────────────────────────────

/// The message given when no profile has the identifier `id`.
pub open spec fn profile_not_found_text(id: Seq<char>) -> Seq<char> {
    "profile not found: "@ + id
}

/// The first profile with identifier `id`, or the message naming the
/// identifier when there is none.
pub fn find_profile<'a>(cfg: &'a MultiConfig, id: &str) -> (r: Result<&'a BridgeProfile, String>)
    ensures
        match r {
            Ok(p) => exists|i: int|
                {
                    &&& 0 <= i < cfg.profiles@.len()
                    &&& cfg.profiles@[i] == *p
                    &&& p.id@ == id@
                    &&& forall|j: int| 0 <= j < i ==> cfg.profiles@[j].id@ != id@
                },
            Err(msg) => {
                &&& forall|i: int| 0 <= i < cfg.profiles@.len() ==> cfg.profiles@[i].id@ != id@
                &&& msg@ == profile_not_found_text(id@)
            },
        },
{
    let mut i: usize = 0;
    while i < cfg.profiles.len()
        invariant
            i <= cfg.profiles@.len(),
            forall|j: int| 0 <= j < i ==> cfg.profiles@[j].id@ != id@,
        decreases cfg.profiles@.len() - i,
    {
        if str_eq(cfg.profiles[i].id.as_str(), id) {
            return Ok(&cfg.profiles[i]);
        }
        i = i + 1;
    }
    Err(concat_str("profile not found: ", id))
}

/// Positions of the profiles that start with the application, in order.
pub fn autostart_indices(cfg: &MultiConfig) -> (r: Vec<usize>)
    ensures
        forall|k: int|
            0 <= k < r@.len() ==> r@[k] < cfg.profiles@.len() && cfg.profiles@[r@[k] as int].auto_start,
        forall|i: int|
            0 <= i < cfg.profiles@.len() && cfg.profiles@[i].auto_start ==> r@.contains(i as usize),
        forall|k: int, l: int| 0 <= k < l < r@.len() ==> r@[k] < r@[l],
{
    let mut r: Vec<usize> = Vec::new();
    let mut i: usize = 0;
    while i < cfg.profiles.len()
        invariant
            i <= cfg.profiles@.len(),
            forall|k: int| 0 <= k < r@.len() ==> r@[k] < i && cfg.profiles@[r@[k] as int].auto_start,
            forall|j: int| 0 <= j < i && cfg.profiles@[j].auto_start ==> r@.contains(j as usize),
            forall|k: int, l: int| 0 <= k < l < r@.len() ==> r@[k] < r@[l],
        decreases cfg.profiles@.len() - i,
    {
        if cfg.profiles[i].auto_start {
            let ghost before = r@;
            r.push(i);
            proof {
                assert(r@[r@.len() - 1] == i);
                assert forall|j: int|
                    0 <= j < i + 1 && cfg.profiles@[j].auto_start implies r@.contains(j as usize) by {
                    if j < i {
                        let k = choose|k: int| 0 <= k < before.len() && before[k] == j as usize;
                        assert(r@[k] == j as usize);
                    } else {
                        assert(r@[r@.len() - 1] == j as usize);
                    }
                }
            }
        }
        i = i + 1;
    }
    r
}

// ───────────────────────────── status ─────────────────────────────

/// What the settings window shows of a profile.
pub struct ProfileStatusInfo {
    pub id: String,
    pub name: String,
    pub server: String,
    pub running: bool,
}

/// `info` shows the profile `p`, running or not as `running` says.
pub open spec fn shows_profile(info: ProfileStatusInfo, p: BridgeProfile, running: bool) -> bool {
    &&& info.id@ == p.id@
    &&& info.name@ == p.name@
    &&& info.server@ == p.server@
    &&& info.running == running
}

/// The status line of each profile, given whether each one runs.
pub fn status_list(profiles: &Vec<BridgeProfile>, running: &Vec<bool>) -> (r: Vec<ProfileStatusInfo>)
    requires
        running@.len() == profiles@.len(),
    ensures
        r@.len() == profiles@.len(),
        forall|i: int| 0 <= i < r@.len() ==> shows_profile(#[trigger] r@[i], profiles@[i], running@[i]),
{
    let mut r: Vec<ProfileStatusInfo> = Vec::new();
    let mut i: usize = 0;
    while i < profiles.len()
        invariant
            i <= profiles@.len(),
            running@.len() == profiles@.len(),
            r@.len() == i,
            forall|k: int| 0 <= k < i ==> shows_profile(#[trigger] r@[k], profiles@[k], running@[k]),
        decreases profiles@.len() - i,
    {
        let p = &profiles[i];
        let item = ProfileStatusInfo {
            id: p.id.clone(),
            name: p.name.clone(),
            server: p.server.clone(),
            running: running[i],
        };
        r.push(item);
        i = i + 1;
    }
    r
}

// ───────────────────────────── command line ─────────────────────────────

/// The arguments that start the bridge for a profile: the server; the token
/// when there is one; the stealth engine and headless mode when a browser is
/// used, `--no-browser` when none is; the shell switch; the device name when
/// there is one.
pub open spec fn bridge_arg_list(p: ProfileView) -> Seq<Seq<char>> {
    seq!["--server"@, p.server] + (if p.token.len() > 0 {
        seq!["--token"@, p.token]
    } else {
        Seq::<Seq<char>>::empty()
    }) + (if p.browser {
        (if p.engine == "stealth"@ {
            seq!["--browser-engine"@, "stealth"@]
        } else {
            Seq::<Seq<char>>::empty()
        }) + (if p.headless {
            seq!["--headless"@]
        } else {
            Seq::<Seq<char>>::empty()
        })
    } else {
        seq!["--no-browser"@]
    }) + (if p.shell {
        seq!["--shell"@]
    } else {
        Seq::<Seq<char>>::empty()
    }) + (if p.device.len() > 0 {
        seq!["--device"@, p.device]
    } else {
        Seq::<Seq<char>>::empty()
    })
}

fn push_arg(v: &mut Vec<String>, s: &str)
    ensures
        strings_view(final(v)@) == strings_view(old(v)@).push(s@),
{
    v.push(s.to_owned());
    proof {
        assert(strings_view(final(v)@) =~= strings_view(old(v)@).push(s@));
    }
}

/// The arguments that start the bridge for `profile`.
pub fn bridge_args(profile: &BridgeProfile) -> (args: Vec<String>)
    ensures
        strings_view(args@) == bridge_arg_list(profile@),
{
    let p = profile;
    let mut args: Vec<String> = Vec::new();
    let ghost mut expect: Seq<Seq<char>> = seq![];
    push_arg(&mut args, "--server");
    push_arg(&mut args, p.server.as_str());
    proof {
        expect = seq!["--server"@, p.server@];
        assert(strings_view(args@) =~= expect);
    }
    if !p.token.as_str().is_empty() {
        push_arg(&mut args, "--token");
        push_arg(&mut args, p.token.as_str());
    }
    proof {
        let part = if p.token@.len() > 0 {
            seq!["--token"@, p.token@]
        } else {
            Seq::<Seq<char>>::empty()
        };
        expect = expect + part;
        assert(strings_view(args@) =~= expect);
    }
    if p.browser {
        if str_eq(p.engine.as_str(), "stealth") {
            push_arg(&mut args, "--browser-engine");
            push_arg(&mut args, "stealth");
        }
        if p.headless {
            push_arg(&mut args, "--headless");
        }
    } else {
        push_arg(&mut args, "--no-browser");
    }
    proof {
        let part = if p.browser {
            (if p.engine@ == "stealth"@ {
                seq!["--browser-engine"@, "stealth"@]
            } else {
                Seq::<Seq<char>>::empty()
            }) + (if p.headless {
                seq!["--headless"@]
            } else {
                Seq::<Seq<char>>::empty()
            })
        } else {
            seq!["--no-browser"@]
        };
        expect = expect + part;
        assert(strings_view(args@) =~= expect);
    }
    if p.shell {
        push_arg(&mut args, "--shell");
    }
    proof {
        let part = if p.shell {
            seq!["--shell"@]
        } else {
            Seq::<Seq<char>>::empty()
        };
        expect = expect + part;
        assert(strings_view(args@) =~= expect);
    }
    if !p.device.as_str().is_empty() {
        push_arg(&mut args, "--device");
        push_arg(&mut args, p.device.as_str());
    }
    proof {
        let part = if p.device@.len() > 0 {
            seq!["--device"@, p.device@]
        } else {
            Seq::<Seq<char>>::empty()
        };
        expect = expect + part;
        assert(strings_view(args@) =~= expect);
        assert(expect =~= bridge_arg_list(profile@));
    }
    args
}

/// The words the bridge reads as switches.
pub open spec fn is_bridge_switch(s: Seq<char>) -> bool {
    ||| s == "--server"@
    ||| s == "--token"@
    ||| s == "--browser-engine"@
    ||| s == "--headless"@
    ||| s == "--no-browser"@
    ||| s == "--shell"@
    ||| s == "--device"@
}

proof fn lemma_contains_concat(a: Seq<Seq<char>>, b: Seq<Seq<char>>, x: Seq<char>)
    ensures
        (a + b).contains(x) <==> a.contains(x) || b.contains(x),
{
    if a.contains(x) {
        let i = choose|i: int| 0 <= i < a.len() && a[i] == x;
        assert((a + b)[i] == x);
    }
    if b.contains(x) {
        let i = choose|i: int| 0 <= i < b.len() && b[i] == x;
        assert((a + b)[a.len() + i] == x);
    }
    if (a + b).contains(x) {
        let i = choose|i: int| 0 <= i < (a + b).len() && (a + b)[i] == x;
        if i < a.len() {
            assert(a[i] == x);
        } else {
            assert(b[i - a.len()] == x);
        }
    }
}

proof fn lemma_contains_pair(u: Seq<char>, v: Seq<char>, x: Seq<char>)
    ensures
        seq![u, v].contains(x) <==> (x == u || x == v),
        seq![u].contains(x) <==> x == u,
        !Seq::<Seq<char>>::empty().contains(x),
{
    if x == u {
        assert(seq![u, v][0] == x);
        assert(seq![u][0] == x);
    }
    if x == v {
        assert(seq![u, v][1] == x);
    }
}

proof fn lemma_switch_words_differ()
    ensures
        is_bridge_switch("--server"@),
        is_bridge_switch("--token"@),
        is_bridge_switch("--browser-engine"@),
        is_bridge_switch("--headless"@),
        is_bridge_switch("--no-browser"@),
        is_bridge_switch("--shell"@),
        is_bridge_switch("--device"@),
        !is_bridge_switch("stealth"@),
        "--server"@ != "--device"@,
        "--token"@ != "--shell"@,
        "--server"@.len() == 8 && "--token"@.len() == 7 && "--browser-engine"@.len() == 16,
        "--headless"@.len() == 10 && "--no-browser"@.len() == 12 && "--shell"@.len() == 7,
        "--device"@.len() == 8,
{
    reveal_strlit("--server");
    reveal_strlit("--token");
    reveal_strlit("--browser-engine");
    reveal_strlit("--headless");
    reveal_strlit("--no-browser");
    reveal_strlit("--shell");
    reveal_strlit("--device");
    reveal_strlit("stealth");
    assert("--server"@[2] != "--device"@[2]);
    assert("--token"@[2] != "--shell"@[2]);
    assert("stealth"@[0] != "--token"@[0]);
    assert("stealth"@[0] != "--shell"@[0]);
}

/// Which switches start a profile's bridge depends on the profile's settings
/// one by one: the list begins with the server; `--token` is there exactly
/// when a token is set, `--device` exactly when a device name is set,
/// `--no-browser` exactly when the browser is off, `--browser-engine` exactly
/// when the browser is on with the stealth engine, `--headless` exactly when
/// the browser is on in headless mode (whatever the engine), and `--shell`
/// exactly when the shell tool is on (whatever the browser settings). The
/// values given (server, token, device) are taken not to be switch words.
pub proof fn lemma_bridge_switches(p: ProfileView)
    requires
        !is_bridge_switch(p.server),
        !is_bridge_switch(p.token),
        !is_bridge_switch(p.device),
    ensures
        bridge_arg_list(p).len() >= 2,
        bridge_arg_list(p)[0] == "--server"@,
        bridge_arg_list(p)[1] == p.server,
        bridge_arg_list(p).contains("--token"@) <==> p.token.len() > 0,
        bridge_arg_list(p).contains("--device"@) <==> p.device.len() > 0,
        bridge_arg_list(p).contains("--no-browser"@) <==> !p.browser,
        bridge_arg_list(p).contains("--browser-engine"@) <==> p.browser && p.engine == "stealth"@,
        bridge_arg_list(p).contains("--headless"@) <==> p.browser && p.headless,
        bridge_arg_list(p).contains("--shell"@) <==> p.shell,
{
    lemma_switch_words_differ();
    let s0 = seq!["--server"@, p.server];
    let t = if p.token.len() > 0 {
        seq!["--token"@, p.token]
    } else {
        Seq::<Seq<char>>::empty()
    };
    let e = if p.engine == "stealth"@ {
        seq!["--browser-engine"@, "stealth"@]
    } else {
        Seq::<Seq<char>>::empty()
    };
    let h = if p.headless {
        seq!["--headless"@]
    } else {
        Seq::<Seq<char>>::empty()
    };
    let b = if p.browser {
        e + h
    } else {
        seq!["--no-browser"@]
    };
    let sh = if p.shell {
        seq!["--shell"@]
    } else {
        Seq::<Seq<char>>::empty()
    };
    let d = if p.device.len() > 0 {
        seq!["--device"@, p.device]
    } else {
        Seq::<Seq<char>>::empty()
    };
    let a = bridge_arg_list(p);
    assert(a == s0 + t + b + sh + d);
    assert(a[0] == s0[0] && a[1] == s0[1]);
    let flags = seq![
        "--token"@,
        "--device"@,
        "--no-browser"@,
        "--browser-engine"@,
        "--headless"@,
        "--shell"@,
    ];
    assert forall|k: int| 0 <= k < flags.len() implies (a.contains(#[trigger] flags[k]) <==> (
    s0.contains(flags[k]) || t.contains(flags[k]) || e.contains(flags[k]) && p.browser
        || h.contains(flags[k]) && p.browser || (!p.browser && flags[k] == "--no-browser"@)
        || sh.contains(flags[k]) || d.contains(flags[k]))) by {
        let x = flags[k];
        lemma_contains_concat(s0 + t + b + sh, d, x);
        lemma_contains_concat(s0 + t + b, sh, x);
        lemma_contains_concat(s0 + t, b, x);
        lemma_contains_concat(s0, t, x);
        lemma_contains_concat(e, h, x);
        lemma_contains_pair("--no-browser"@, "--no-browser"@, x);
    }
    assert forall|k: int| 0 <= k < flags.len() implies (#[trigger] flags[k] != "--server"@
        && flags[k] != "stealth"@ && flags[k] != p.server && flags[k] != p.token
        && flags[k] != p.device) by {}
    assert forall|k: int| 0 <= k < flags.len() implies !s0.contains(#[trigger] flags[k]) by {
        lemma_contains_pair("--server"@, p.server, flags[k]);
    }
    assert forall|k: int| 0 <= k < flags.len() implies (t.contains(#[trigger] flags[k]) <==> (
    p.token.len() > 0 && flags[k] == "--token"@)) by {
        lemma_contains_pair("--token"@, p.token, flags[k]);
    }
    assert forall|k: int| 0 <= k < flags.len() implies (d.contains(#[trigger] flags[k]) <==> (
    p.device.len() > 0 && flags[k] == "--device"@)) by {
        lemma_contains_pair("--device"@, p.device, flags[k]);
    }
    assert forall|k: int| 0 <= k < flags.len() implies (e.contains(#[trigger] flags[k]) <==> (
    p.engine == "stealth"@ && flags[k] == "--browser-engine"@)) by {
        lemma_contains_pair("--browser-engine"@, "stealth"@, flags[k]);
    }
    assert forall|k: int| 0 <= k < flags.len() implies (h.contains(#[trigger] flags[k]) <==> (
    p.headless && flags[k] == "--headless"@)) by {
        lemma_contains_pair("--headless"@, "--headless"@, flags[k]);
    }
    assert forall|k: int| 0 <= k < flags.len() implies (sh.contains(#[trigger] flags[k]) <==> (
    p.shell && flags[k] == "--shell"@)) by {
        lemma_contains_pair("--shell"@, "--shell"@, flags[k]);
    }
    assert(flags[0] == "--token"@);
    assert(flags[1] == "--device"@);
    assert(flags[2] == "--no-browser"@);
    assert(flags[3] == "--browser-engine"@);
    assert(flags[4] == "--headless"@);
    assert(flags[5] == "--shell"@);
}

/// Each switch that takes a value is followed by it: the server first, the
/// token right after it, the stealth engine after that, the device name
/// last; and the list has one word per switch or value and no more.
pub proof fn lemma_bridge_switch_values(p: ProfileView)
    ensures
        ({
            let a = bridge_arg_list(p);
            let tl: int = if p.token.len() > 0 { 2 } else { 0 };
            &&& a.len() == 2 + tl + (if p.browser {
                (if p.engine == "stealth"@ { 2int } else { 0int }) + (if p.headless { 1int } else { 0int })
            } else {
                1int
            }) + (if p.shell { 1int } else { 0int }) + (if p.device.len() > 0 { 2int } else { 0int })
            &&& a[0] == "--server"@ && a[1] == p.server
            &&& p.token.len() > 0 ==> a[2] == "--token"@ && a[3] == p.token
            &&& p.browser && p.engine == "stealth"@ ==> a[2 + tl] == "--browser-engine"@ && a[3
                + tl] == "stealth"@
            &&& p.device.len() > 0 ==> a[a.len() - 2] == "--device"@ && a[a.len() - 1] == p.device
        }),
{
    let s0 = seq!["--server"@, p.server];
    let t = if p.token.len() > 0 {
        seq!["--token"@, p.token]
    } else {
        Seq::<Seq<char>>::empty()
    };
    let e = if p.engine == "stealth"@ {
        seq!["--browser-engine"@, "stealth"@]
    } else {
        Seq::<Seq<char>>::empty()
    };
    let h = if p.headless {
        seq!["--headless"@]
    } else {
        Seq::<Seq<char>>::empty()
    };
    let b = if p.browser {
        e + h
    } else {
        seq!["--no-browser"@]
    };
    let sh = if p.shell {
        seq!["--shell"@]
    } else {
        Seq::<Seq<char>>::empty()
    };
    let d = if p.device.len() > 0 {
        seq!["--device"@, p.device]
    } else {
        Seq::<Seq<char>>::empty()
    };
    let a = bridge_arg_list(p);
    assert(a == s0 + t + b + sh + d);
    let tl: int = t.len() as int;
    assert(a[0] == s0[0] && a[1] == s0[1]);
    if p.token.len() > 0 {
        assert(a[2] == t[0] && a[3] == t[1]);
    }
    if p.browser && p.engine == "stealth"@ {
        assert(a[2 + tl] == b[0] && b[0] == e[0]);
        assert(a[3 + tl] == b[1] && b[1] == e[1]);
    }
    if p.device.len() > 0 {
        assert(a[a.len() - 2] == d[0] && a[a.len() - 1] == d[1]);
    }
}

/// The program and leading arguments named by the `BRIDGE_ENTRY` and
/// `BRIDGE_NODE` settings: with an entry script, the given node program (or
/// `node`) runs that script; without one, `None`.
pub fn command_from_env(entry: Option<String>, node: Option<String>) -> (r: Option<(String, Vec<String>)>)
    ensures
        match (entry, r) {
            (Some(e), Some((program, pre))) => program@ == match node {
                Some(n) => n@,
                None => "node"@,
            } && strings_view(pre@) == seq![e@],
            (None, None) => true,
            _ => false,
        },
{
    match entry {
        Some(e) => {
            let program = match node {
                Some(n) => n,
                None => "node".to_owned(),
            };
            let ghost ev = e@;
            let mut pre: Vec<String> = Vec::new();
            pre.push(e);
            proof {
                assert(strings_view(pre@) =~= seq![ev]);
            }
            Some((program, pre))
        },
        None => None,
    }
}

/// The whole argument list for a profile's bridge: the leading arguments of
/// the bridge program, then the profile's own.
pub fn spawn_args(pre_args: Vec<String>, profile: &BridgeProfile) -> (r: Vec<String>)
    ensures
        strings_view(r@) == strings_view(pre_args@) + bridge_arg_list(profile@),
{
    let mut r = pre_args;
    let mut rest = bridge_args(profile);
    let ghost a = r@;
    let ghost b = rest@;
    r.append(&mut rest);
    proof {
        assert(r@ == a + b);
        assert(strings_view(a + b) =~= strings_view(a) + strings_view(b));
    }
    r
}

/// File name of the bundled node program on the platform (`windows` tells
/// which).
pub fn node_bin_name(windows: bool) -> (s: &'static str)
    ensures
        s@ == if windows {
            "node.exe"@
        } else {
            "node"@
        },
{
    if windows {
        "node.exe"
    } else {
        "node"
    }
}

} // verus!
