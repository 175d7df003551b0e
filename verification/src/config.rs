//! Resolution of the server's settings from its configuration file and
//! the environment: MQTT, the Telegram bot token, and the scheduler's
//! sizes and periods. A file value wins; the environment fills what the
//! file leaves out; built-in defaults fill the rest.
//!
//! The environment is read through a lookup function handed in by the
//! caller, so what it answers is whatever the caller's lookup gives.

use vstd::prelude::*;
use std::collections::HashSet;

use crate::mqtt::{MqttPublisherConfig, MqttQos, normalize_topic_prefix, normalize_topic_prefix_spec};
use crate::text::{
    parse_u64, parse_u64_spec, parse_usize, parse_usize_spec, push_char, str_eq, trim_spec, trim_str,
};

verus! {

/// The `[telegram]` section of the configuration file.
#[derive(Clone, Debug)]
pub struct FileTelegramConfig {
    pub enabled: Option<bool>,
    pub bot_token: Option<String>,
    pub bot_token_env: Option<String>,
    pub queue_cap: Option<usize>,
}

/// The `[mqtt]` section of the configuration file.
#[derive(Clone, Debug)]
pub struct FileMqttConfig {
    pub enabled: Option<bool>,
    pub host: Option<String>,
    pub port: Option<u16>,
    pub client_id: Option<String>,
    pub username: Option<String>,
    pub username_env: Option<String>,
    pub password: Option<String>,
    pub password_env: Option<String>,
    pub topic_prefix: Option<String>,
    pub queue_cap: Option<usize>,
    pub qos: Option<u8>,
    pub retain_health: Option<bool>,
    pub publish_values: Option<bool>,
    pub publish_alarms: Option<bool>,
    pub value_kpz_ids: Option<Vec<i32>>,
    pub value_group_ids: Option<Vec<i32>>,
    pub value_reg_ids: Option<Vec<i32>>,
}

/// The `[scheduler]` section of the configuration file.
#[derive(Clone, Copy, Debug)]
pub struct FileSchedulerConfig {
    pub pool_size: Option<usize>,
    pub tick_ms: Option<u64>,
    pub sync_period_sec: Option<u64>,
    pub max_queue: Option<usize>,
    pub max_inflight: Option<usize>,
    pub auto_inflight: Option<bool>,
    pub auto_inflight_max: Option<usize>,
    pub auto_inflight_backlog_per_slot: Option<usize>,
}

/// The scheduler settings in effect.
#[derive(Clone, Copy, Debug)]
pub struct SchedulerCfg {
    pub pool_size: usize,
    pub tick_ms: u64,
    pub sync_period_sec: u64,
    pub max_queue: usize,
    pub max_inflight: usize,
}

// ---------------------------------------------------------------------
// The environment.
// ---------------------------------------------------------------------

/// The lookup may answer `v` for the variable `name`.
pub open spec fn env_gives<F: Fn(&str) -> Option<String>>(get_env: F, name: Seq<char>, v: Option<String>) -> bool {
    exists|n: &str| n@ == name && #[trigger] call_ensures(get_env, (n,), v)
}

/// The lookup can be asked about any name.
pub open spec fn env_callable<F: Fn(&str) -> Option<String>>(get_env: F) -> bool {
    forall|n: &str| call_requires(get_env, (n,))
}

fn lookup_env<F: Fn(&str) -> Option<String>>(get_env: &F, name: &str) -> (r: Option<String>)
    requires
        env_callable(*get_env),
    ensures
        env_gives(*get_env, name@, r),
{
    get_env(name)
}

/// The characters of an optional string.
pub open spec fn opt_view(o: Option<String>) -> Option<Seq<char>> {
    match o {
        Some(s) => Some(s@),
        None => None,
    }
}

/// The characters of an optional string slice.
pub open spec fn opt_str_view(o: Option<&str>) -> Option<Seq<char>> {
    match o {
        Some(s) => Some(s@),
        None => None,
    }
}

/// A variable read as a `u64`, or `default` when unset or unreadable.
pub open spec fn env_u64_value(v: Option<String>, default: u64) -> u64 {
    match v {
        Some(s) => match parse_u64_spec(s@) {
            Some(x) => x,
            None => default,
        },
        None => default,
    }
}

/// A variable read as a `usize`, or `default` when unset or unreadable.
pub open spec fn env_usize_value(v: Option<String>, default: usize) -> usize {
    match v {
        Some(s) => match parse_usize_spec(s@) {
            Some(x) => x,
            None => default,
        },
        None => default,
    }
}

/// `c` with ASCII upper-case letters made lower-case.
pub open spec fn ascii_lower(c: char) -> char {
    if 'A' <= c && c <= 'Z' { ((c as int) + 32) as char } else { c }
}

/// A string with ASCII upper-case letters made lower-case
/// (`str::to_ascii_lowercase`).
pub open spec fn ascii_lower_seq(s: Seq<char>) -> Seq<char> {
    s.map_values(|c: char| ascii_lower(c))
}

/// The truth value a word names: 1/true/yes/on and 0/false/no/off.
pub open spec fn bool_word(w: Seq<char>) -> Option<bool> {
    if w == "1"@ || w == "true"@ || w == "yes"@ || w == "on"@ {
        Some(true)
    } else if w == "0"@ || w == "false"@ || w == "no"@ || w == "off"@ {
        Some(false)
    } else {
        None
    }
}

/// A variable read as a truth value (trimmed, any case), or `default`.
pub open spec fn env_bool_value(v: Option<String>, default: bool) -> bool {
    match v {
        Some(s) => match bool_word(ascii_lower_seq(trim_spec(s@))) {
            Some(b) => b,
            None => default,
        },
        None => default,
    }
}

/// Reads a variable as a `u64`, with a default.
pub fn env_u64<F: Fn(&str) -> Option<String>>(get_env: &F, name: &str, default: u64) -> (r: u64)
    requires
        env_callable(*get_env),
    ensures
        exists|v: Option<String>| #[trigger] env_gives(*get_env, name@, v) && r == env_u64_value(v, default),
{
    let v = lookup_env(get_env, name);
    match &v {
        Some(s) => match parse_u64(s.as_str()) {
            Some(x) => x,
            None => default,
        },
        None => default,
    }
}

/// Reads a variable as a `usize`, with a default.
pub fn env_usize<F: Fn(&str) -> Option<String>>(get_env: &F, name: &str, default: usize) -> (r: usize)
    requires
        env_callable(*get_env),
    ensures
        exists|v: Option<String>| #[trigger] env_gives(*get_env, name@, v) && r == env_usize_value(v, default),
{
    let v = lookup_env(get_env, name);
    match &v {
        Some(s) => match parse_usize(s.as_str()) {
            Some(x) => x,
            None => default,
        },
        None => default,
    }
}

fn to_ascii_lowercase(s: &str) -> (r: String)
    ensures
        r@ == ascii_lower_seq(s@),
{
    let mut out = String::new();
    let n = s.unicode_len();
    let mut i: usize = 0;
    while i < n
        invariant
            n == s@.len(),
            i <= n,
            out@ == ascii_lower_seq(s@.subrange(0, i as int)),
        decreases n - i,
    {
        let c = s.get_char(i);
        let l = if 'A' <= c && c <= 'Z' { ((c as u32) + 32) as u8 as char } else { c };
        assert(l == ascii_lower(c)) by {
            if 'A' <= c && c <= 'Z' {
                assert((c as u32) + 32 < 256);
            }
        }
        push_char(&mut out, l);
        i = i + 1;
        assert(out@ =~= ascii_lower_seq(s@.subrange(0, i as int)));
    }
    assert(s@.subrange(0, n as int) =~= s@);
    out
}

fn bool_word_exec(w: &str) -> (r: Option<bool>)
    ensures
        r == bool_word(w@),
{
    if str_eq(w, "1") || str_eq(w, "true") || str_eq(w, "yes") || str_eq(w, "on") {
        Some(true)
    } else if str_eq(w, "0") || str_eq(w, "false") || str_eq(w, "no") || str_eq(w, "off") {
        Some(false)
    } else {
        None
    }
}

/// Reads a variable as a truth value, with a default.
pub fn env_bool<F: Fn(&str) -> Option<String>>(get_env: &F, name: &str, default: bool) -> (r: bool)
    requires
        env_callable(*get_env),
    ensures
        exists|v: Option<String>| #[trigger] env_gives(*get_env, name@, v) && r == env_bool_value(v, default),
{
    let v = lookup_env(get_env, name);
    match &v {
        Some(s) => {
            let t = trim_str(s.as_str());
            let l = to_ascii_lowercase(t.as_str());
            match bool_word_exec(l.as_str()) {
                Some(b) => b,
                None => default,
            }
        },
        None => default,
    }
}

// ---------------------------------------------------------------------
// Secrets.
// ---------------------------------------------------------------------

/// The trimmed text of a field that is present and not blank.
pub open spec fn non_blank_trimmed(o: Option<Seq<char>>) -> Option<Seq<char>> {
    match o {
        Some(s) => if trim_spec(s).len() > 0 { Some(trim_spec(s)) } else { None },
        None => None,
    }
}

/// The variable to read: the configured name when it is not blank
/// (trimmed), else the default.
pub open spec fn chosen_env_name(env_name: Option<Seq<char>>, default_env_name: Seq<char>) -> Seq<char> {
    match non_blank_trimmed(env_name) {
        Some(n) => n,
        None => default_env_name,
    }
}

/// A secret: the variable's value, trimmed, when not blank; else the file
/// value, trimmed, when not blank; else none.
pub open spec fn pick_secret(env_value: Option<String>, file_value: Option<Seq<char>>) -> Option<Seq<char>> {
    match non_blank_trimmed(opt_view(env_value)) {
        Some(v) => Some(v),
        None => non_blank_trimmed(file_value),
    }
}

fn non_blank_trimmed_exec(o: Option<&str>) -> (r: Option<String>)
    ensures
        opt_view(r) == non_blank_trimmed(opt_str_view(o)),
{
    match o {
        Some(s) => {
            let t = trim_str(s);
            if t.as_str().unicode_len() > 0 {
                Some(t)
            } else {
                None
            }
        },
        None => None,
    }
}

/// Resolves an optional secret (a user name or a password): the variable
/// named by `env_name` (or `default_env_name`) when it holds a value, else
/// the file value; both trimmed, blanks ignored.
pub fn resolve_optional_secret<F: Fn(&str) -> Option<String>>(
    env_name: Option<&str>,
    file_value: Option<&str>,
    default_env_name: &str,
    get_env: &F,
) -> (r: Option<String>)
    requires
        env_callable(*get_env),
    ensures
        exists|v: Option<String>|
            #[trigger] env_gives(
                *get_env,
                chosen_env_name(opt_str_view(env_name), default_env_name@),
                v,
            ) && opt_view(r) == pick_secret(v, opt_str_view(file_value)),
{
    let name = match non_blank_trimmed_exec(env_name) {
        Some(n) => n,
        None => String::from_str(default_env_name),
    };
    let v = lookup_env(get_env, name.as_str());
    let ghost gv: Option<String> = v;
    let from_env = match &v {
        Some(s) => non_blank_trimmed_exec(Some(s.as_str())),
        None => None,
    };
    let r = match from_env {
        Some(s) => Some(s),
        None => non_blank_trimmed_exec(file_value),
    };
    assert(env_gives(*get_env, chosen_env_name(opt_str_view(env_name), default_env_name@), gv)
        && opt_view(r) == pick_secret(gv, opt_str_view(file_value)));
    r
}

/// The bot token: the variable's value as it is when not blank, else the
/// file value trimmed; none when that is empty or missing.
pub open spec fn pick_bot_token(env_value: Option<String>, file_token: Option<Seq<char>>) -> Option<Seq<char>> {
    let t = match env_value {
        Some(s) => if trim_spec(s@).len() > 0 {
            Some(s@)
        } else {
            match file_token { Some(f) => Some(trim_spec(f)), None => None }
        },
        None => match file_token { Some(f) => Some(trim_spec(f)), None => None },
    };
    match t {
        Some(x) => if x.len() == 0 { None } else { Some(x) },
        None => None,
    }
}

/// Resolves the Telegram bot token from the variable named in the file
/// (default TELEGRAM_BOT_TOKEN), falling back to the token in the file.
pub fn resolve_telegram_bot_token<F: Fn(&str) -> Option<String>>(tg: &FileTelegramConfig, get_env: F) -> (r: Option<String>)
    requires
        env_callable(get_env),
    ensures
        exists|v: Option<String>|
            #[trigger] env_gives(get_env, chosen_env_name(opt_view(tg.bot_token_env), "TELEGRAM_BOT_TOKEN"@), v)
                && opt_view(r) == pick_bot_token(v, opt_view(tg.bot_token)),
{
    let name = match &tg.bot_token_env {
        Some(e) => match non_blank_trimmed_exec(Some(e.as_str())) {
            Some(n) => n,
            None => String::from_str("TELEGRAM_BOT_TOKEN"),
        },
        None => String::from_str("TELEGRAM_BOT_TOKEN"),
    };
    let v = lookup_env(&get_env, name.as_str());
    let ghost gv: Option<String> = v;
    let from_file = match &tg.bot_token {
        Some(b) => Some(trim_str(b.as_str())),
        None => None,
    };
    let token = match v {
        Some(s) => {
            let t = trim_str(s.as_str());
            if t.as_str().unicode_len() > 0 {
                Some(s)
            } else {
                from_file
            }
        },
        None => from_file,
    };
    let r = match token {
        Some(t) => if t.as_str().unicode_len() == 0 {
            None
        } else {
            Some(t)
        },
        None => None,
    };
    assert(env_gives(get_env, chosen_env_name(opt_view(tg.bot_token_env), "TELEGRAM_BOT_TOKEN"@), gv)
        && opt_view(r) == pick_bot_token(gv, opt_view(tg.bot_token)));
    r
}

// ---------------------------------------------------------------------
// MQTT.
// ---------------------------------------------------------------------

/// The ids of `values` that are positive.
pub open spec fn positive_ids(values: Option<Seq<i32>>) -> Set<i32> {
    Set::new(|v: i32| v > 0 && match values { Some(s) => s.contains(v), None => false })
}

/// The set of the positive ids in `values`.
pub fn positive_id_set(values: Option<&[i32]>) -> (r: HashSet<i32>)
    ensures
        r@ == positive_ids(match values { Some(s) => Some(s@), None => None }),
{
    broadcast use vstd::std_specs::hash::group_hash_axioms;
    let mut out: HashSet<i32> = HashSet::new();
    let ghost vs: Option<Seq<i32>> = match values { Some(s) => Some(s@), None => None };
    match values {
        None => {
            assert(out@ =~= positive_ids(vs));
        },
        Some(s) => {
            let n = s.len();
            let mut i: usize = 0;
            while i < n
                invariant
                    n == s@.len(),
                    i <= n,
                    out@ == Set::new(|v: i32| v > 0 && s@.subrange(0, i as int).contains(v)),
                decreases n - i,
            {
                let v = s[i];
                let ghost before = out@;
                if v > 0 {
                    out.insert(v);
                }
                i = i + 1;
                proof {
                    let pre = s@.subrange(0, i - 1);
                    let cur = s@.subrange(0, i as int);
                    assert forall|x: i32| out@.contains(x) <==> (x > 0 && cur.contains(x)) by {
                        if x > 0 && cur.contains(x) {
                            let k = choose|k: int| 0 <= k < cur.len() && cur[k] == x;
                            if k < i - 1 {
                                assert(pre[k] == x);
                            }
                        }
                        if pre.contains(x) {
                            let k = choose|k: int| 0 <= k < pre.len() && pre[k] == x;
                            assert(cur[k] == x);
                        }
                        if x == v {
                            assert(cur[i - 1] == v);
                        }
                    }
                    assert(out@ =~= Set::new(|x: i32| x > 0 && cur.contains(x)));
                }
            }
            assert(s@.subrange(0, n as int) =~= s@);
            assert(out@ =~= positive_ids(vs));
        },
    }
    out
}

/// The delivery guarantee a number names: 0 and 2, anything else 1.
pub open spec fn qos_from_number(q: u8) -> MqttQos {
    if q == 0 { MqttQos::Qos0 } else if q == 2 { MqttQos::Qos2 } else { MqttQos::Qos1 }
}

/// A field trimmed when it is not blank, else the default.
pub open spec fn non_blank_or(o: Option<String>, default: Seq<char>) -> Seq<char> {
    match non_blank_trimmed(opt_view(o)) {
        Some(s) => s,
        None => default,
    }
}

fn non_blank_or_exec(o: &Option<String>, default: &str) -> (r: String)
    ensures
        r@ == non_blank_or(*o, default@),
{
    match o {
        Some(s) => match non_blank_trimmed_exec(Some(s.as_str())) {
            Some(t) => t,
            None => String::from_str(default),
        },
        None => String::from_str(default),
    }
}

fn opt_as_str(o: &Option<String>) -> (r: Option<&str>)
    ensures
        match r { Some(s) => Some(s@), None => None } == opt_view(*o),
{
    match o {
        Some(s) => Some(s.as_str()),
        None => None,
    }
}

fn opt_as_slice(o: &Option<Vec<i32>>) -> (r: Option<&[i32]>)
    ensures
        match r { Some(s) => Some(s@), None => None } == match *o { Some(v) => Some(v@), None => None },
{
    match o {
        Some(v) => Some(v.as_slice()),
        None => None,
    }
}

/// Resolves the MQTT publisher settings: broker 127.0.0.1:1883, client
/// "ss4", prefix "ss4/v1", queue of 1000 (at least 1), QoS 1, every switch
/// on, no id filter, unless the file says otherwise; user name and
/// password from their variables (MQTT_USER / MQTT_PASS unless the file
/// names others) before the file.
pub fn resolve_mqtt_config<F: Fn(&str) -> Option<String>>(mqtt: &FileMqttConfig, get_env: &F) -> (c: MqttPublisherConfig)
    requires
        env_callable(*get_env),
    ensures
        c.host@ == non_blank_or(mqtt.host, "127.0.0.1"@),
        c.port == match mqtt.port { Some(p) => p, None => 1883 },
        c.client_id@ == non_blank_or(mqtt.client_id, "ss4"@),
        exists|v: Option<String>|
            #[trigger] env_gives(*get_env, chosen_env_name(opt_view(mqtt.username_env), "MQTT_USER"@), v)
                && opt_view(c.username) == pick_secret(v, opt_view(mqtt.username)),
        exists|v: Option<String>|
            #[trigger] env_gives(*get_env, chosen_env_name(opt_view(mqtt.password_env), "MQTT_PASS"@), v)
                && opt_view(c.password) == pick_secret(v, opt_view(mqtt.password)),
        c.topic_prefix@ == normalize_topic_prefix_spec(match mqtt.topic_prefix { Some(p) => p@, None => "ss4/v1"@ }),
        c.queue_cap == match mqtt.queue_cap { Some(q) => if q < 1 { 1 } else { q }, None => 1000 },
        c.qos == qos_from_number(match mqtt.qos { Some(q) => q, None => 1 }),
        c.retain_health == match mqtt.retain_health { Some(b) => b, None => true },
        c.publish_values == match mqtt.publish_values { Some(b) => b, None => true },
        c.publish_alarms == match mqtt.publish_alarms { Some(b) => b, None => true },
        c.value_kpz_ids@ == positive_ids(match mqtt.value_kpz_ids { Some(v) => Some(v@), None => None }),
        c.value_group_ids@ == positive_ids(match mqtt.value_group_ids { Some(v) => Some(v@), None => None }),
        c.value_reg_ids@ == positive_ids(match mqtt.value_reg_ids { Some(v) => Some(v@), None => None }),
{
    let username = resolve_optional_secret(opt_as_str(&mqtt.username_env), opt_as_str(&mqtt.username), "MQTT_USER", get_env);
    let password = resolve_optional_secret(opt_as_str(&mqtt.password_env), opt_as_str(&mqtt.password), "MQTT_PASS", get_env);
    let q = match mqtt.qos {
        Some(q) => q,
        None => 1,
    };
    let qos = if q == 0 {
        MqttQos::Qos0
    } else if q == 2 {
        MqttQos::Qos2
    } else {
        MqttQos::Qos1
    };
    let topic_prefix = match &mqtt.topic_prefix {
        Some(p) => normalize_topic_prefix(p.as_str()),
        None => normalize_topic_prefix("ss4/v1"),
    };
    let queue_cap = match mqtt.queue_cap {
        Some(v) => if v < 1 { 1 } else { v },
        None => 1000,
    };
    MqttPublisherConfig {
        host: non_blank_or_exec(&mqtt.host, "127.0.0.1"),
        port: match mqtt.port {
            Some(p) => p,
            None => 1883,
        },
        client_id: non_blank_or_exec(&mqtt.client_id, "ss4"),
        username,
        password,
        topic_prefix,
        queue_cap,
        qos,
        retain_health: match mqtt.retain_health {
            Some(b) => b,
            None => true,
        },
        publish_values: match mqtt.publish_values {
            Some(b) => b,
            None => true,
        },
        publish_alarms: match mqtt.publish_alarms {
            Some(b) => b,
            None => true,
        },
        value_kpz_ids: positive_id_set(opt_as_slice(&mqtt.value_kpz_ids)),
        value_group_ids: positive_id_set(opt_as_slice(&mqtt.value_group_ids)),
        value_reg_ids: positive_id_set(opt_as_slice(&mqtt.value_reg_ids)),
    }
}

// ---------------------------------------------------------------------
// Scheduler.
// ---------------------------------------------------------------------

/// A size setting: the file value, else the variable (or `default`), and
/// at least 1.
pub open spec fn usize_setting<F: Fn(&str) -> Option<String>>(
    get_env: F,
    file_value: Option<usize>,
    name: Seq<char>,
    default: usize,
    r: usize,
) -> bool {
    match file_value {
        Some(x) => r == if x < 1 { 1 } else { x },
        None => exists|v: Option<String>| #[trigger] env_gives(get_env, name, v)
            && r == if env_usize_value(v, default) < 1 { 1 } else { env_usize_value(v, default) },
    }
}

/// A period setting: the file value, else the variable (or `default`),
/// and at least 1.
pub open spec fn u64_setting<F: Fn(&str) -> Option<String>>(
    get_env: F,
    file_value: Option<u64>,
    name: Seq<char>,
    default: u64,
    r: u64,
) -> bool {
    match file_value {
        Some(x) => r == if x < 1 { 1 } else { x },
        None => exists|v: Option<String>| #[trigger] env_gives(get_env, name, v)
            && r == if env_u64_value(v, default) < 1 { 1 } else { env_u64_value(v, default) },
    }
}

/// A switch: the file value, else the variable read as a truth value.
pub open spec fn flag_setting<F: Fn(&str) -> Option<String>>(get_env: F, file_value: Option<bool>, name: Seq<char>, r: bool) -> bool {
    match file_value {
        Some(b) => r == b,
        None => exists|v: Option<String>| #[trigger] env_gives(get_env, name, v) && r == env_bool_value(v, false),
    }
}

/// Whether an optional size is given: in the file, else by a variable that
/// reads as a `usize`.
pub open spec fn presence_setting<F: Fn(&str) -> Option<String>>(get_env: F, file_value: Option<usize>, name: Seq<char>, r: bool) -> bool {
    match file_value {
        Some(_) => r,
        None => exists|v: Option<String>| #[trigger] env_gives(get_env, name, v)
            && r == match v { Some(s) => parse_usize_spec(s@) is Some, None => false },
    }
}

fn usize_setting_exec<F: Fn(&str) -> Option<String>>(get_env: &F, file_value: Option<usize>, name: &str, default: usize) -> (r: usize)
    requires
        env_callable(*get_env),
    ensures
        usize_setting(*get_env, file_value, name@, default, r),
{
    let v = match file_value {
        Some(x) => x,
        None => env_usize(get_env, name, default),
    };
    if v < 1 { 1 } else { v }
}

fn u64_setting_exec<F: Fn(&str) -> Option<String>>(get_env: &F, file_value: Option<u64>, name: &str, default: u64) -> (r: u64)
    requires
        env_callable(*get_env),
    ensures
        u64_setting(*get_env, file_value, name@, default, r),
{
    let v = match file_value {
        Some(x) => x,
        None => env_u64(get_env, name, default),
    };
    if v < 1 { 1 } else { v }
}

fn flag_setting_exec<F: Fn(&str) -> Option<String>>(get_env: &F, file_value: Option<bool>, name: &str) -> (r: bool)
    requires
        env_callable(*get_env),
    ensures
        flag_setting(*get_env, file_value, name@, r),
{
    match file_value {
        Some(b) => b,
        None => env_bool(get_env, name, false),
    }
}

fn presence_setting_exec<F: Fn(&str) -> Option<String>>(get_env: &F, file_value: Option<usize>, name: &str) -> (r: bool)
    requires
        env_callable(*get_env),
    ensures
        presence_setting(*get_env, file_value, name@, r),
{
    match file_value {
        Some(_) => true,
        None => {
            let v = lookup_env(get_env, name);
            match &v {
                Some(s) => parse_usize(s.as_str()).is_some(),
                None => false,
            }
        },
    }
}

/// Fields of the optional `[scheduler]` section.
pub open spec fn file_pool_size(fs: Option<FileSchedulerConfig>) -> Option<usize> {
    match fs {
        Some(s) => s.pool_size,
        None => None,
    }
}

pub open spec fn file_tick_ms(fs: Option<FileSchedulerConfig>) -> Option<u64> {
    match fs {
        Some(s) => s.tick_ms,
        None => None,
    }
}

pub open spec fn file_sync_period_sec(fs: Option<FileSchedulerConfig>) -> Option<u64> {
    match fs {
        Some(s) => s.sync_period_sec,
        None => None,
    }
}

pub open spec fn file_max_queue(fs: Option<FileSchedulerConfig>) -> Option<usize> {
    match fs {
        Some(s) => s.max_queue,
        None => None,
    }
}

pub open spec fn file_max_inflight(fs: Option<FileSchedulerConfig>) -> Option<usize> {
    match fs {
        Some(s) => s.max_inflight,
        None => None,
    }
}

pub open spec fn file_auto_inflight(fs: Option<FileSchedulerConfig>) -> Option<bool> {
    match fs {
        Some(s) => s.auto_inflight,
        None => None,
    }
}

pub open spec fn file_auto_inflight_max(fs: Option<FileSchedulerConfig>) -> Option<usize> {
    match fs {
        Some(s) => s.auto_inflight_max,
        None => None,
    }
}

pub open spec fn file_auto_inflight_backlog_per_slot(fs: Option<FileSchedulerConfig>) -> Option<usize> {
    match fs {
        Some(s) => s.auto_inflight_backlog_per_slot,
        None => None,
    }
}

/// Whether automatic in-flight sizing was asked for: by its switch, or by
/// giving its limit or its backlog per slot, each from the file or else
/// from its variable.
pub open spec fn auto_inflight_asked<F: Fn(&str) -> Option<String>>(get_env: F, fs: Option<FileSchedulerConfig>, r: bool) -> bool {
    exists|a: bool, b: bool, c: bool|
        #![trigger flag_setting(get_env, file_auto_inflight(fs), "SCHED_AUTO_INFLIGHT"@, a), presence_setting(get_env, file_auto_inflight_max(fs), "SCHED_AUTO_INFLIGHT_MAX"@, b), presence_setting(get_env, file_auto_inflight_backlog_per_slot(fs), "SCHED_AUTO_INFLIGHT_BACKLOG_PER_SLOT"@, c)]
        flag_setting(get_env, file_auto_inflight(fs), "SCHED_AUTO_INFLIGHT"@, a)
        && presence_setting(get_env, file_auto_inflight_max(fs), "SCHED_AUTO_INFLIGHT_MAX"@, b)
        && presence_setting(get_env, file_auto_inflight_backlog_per_slot(fs), "SCHED_AUTO_INFLIGHT_BACKLOG_PER_SLOT"@, c)
        && r == (a || b || c)
}

/// Resolves the scheduler settings: pool 420, tick 250 ms, sync every 2 s,
/// queue of 10000 and as many jobs in flight as the pool, each at least 1,
/// unless the file or the SCHED_* variables say otherwise. Also reports
/// whether automatic in-flight sizing was asked for (which is not applied).
pub fn resolve_scheduler_config<F: Fn(&str) -> Option<String>>(file_scheduler: Option<&FileSchedulerConfig>, get_env: &F)
    -> (r: (SchedulerCfg, bool))
    requires
        env_callable(*get_env),
    ensures
        ({
            let fs = match file_scheduler { Some(s) => Some(*s), None => None };
            &&& usize_setting(*get_env, file_pool_size(fs), "SCHED_POOL_SIZE"@, 420, r.0.pool_size)
            &&& u64_setting(*get_env, file_tick_ms(fs), "SCHED_TICK_MS"@, 250, r.0.tick_ms)
            &&& u64_setting(*get_env, file_sync_period_sec(fs), "SCHED_SYNC_PERIOD_SEC"@, 2, r.0.sync_period_sec)
            &&& usize_setting(*get_env, file_max_queue(fs), "SCHED_MAX_QUEUE"@, 10000, r.0.max_queue)
            &&& usize_setting(*get_env, file_max_inflight(fs), "SCHED_MAX_INFLIGHT"@, r.0.pool_size, r.0.max_inflight)
            &&& auto_inflight_asked(*get_env, fs, r.1)
        }),
{
    let fs: Option<FileSchedulerConfig> = match file_scheduler {
        Some(s) => Some(*s),
        None => None,
    };
    let pool_size = usize_setting_exec(get_env, match fs { Some(s) => s.pool_size, None => None }, "SCHED_POOL_SIZE", 420);
    let tick_ms = u64_setting_exec(get_env, match fs { Some(s) => s.tick_ms, None => None }, "SCHED_TICK_MS", 250);
    let sync_period_sec = u64_setting_exec(get_env, match fs { Some(s) => s.sync_period_sec, None => None }, "SCHED_SYNC_PERIOD_SEC", 2);
    let max_queue = usize_setting_exec(get_env, match fs { Some(s) => s.max_queue, None => None }, "SCHED_MAX_QUEUE", 10000);
    let max_inflight = usize_setting_exec(get_env, match fs { Some(s) => s.max_inflight, None => None }, "SCHED_MAX_INFLIGHT", pool_size);
    let auto_inflight = flag_setting_exec(get_env, match fs { Some(s) => s.auto_inflight, None => None }, "SCHED_AUTO_INFLIGHT");
    let auto_max = presence_setting_exec(get_env, match fs { Some(s) => s.auto_inflight_max, None => None }, "SCHED_AUTO_INFLIGHT_MAX");
    let auto_backlog = presence_setting_exec(
        get_env,
        match fs { Some(s) => s.auto_inflight_backlog_per_slot, None => None },
        "SCHED_AUTO_INFLIGHT_BACKLOG_PER_SLOT",
    );
    let cfg = SchedulerCfg { pool_size, tick_ms, sync_period_sec, max_queue, max_inflight };
    let has_auto = auto_inflight || auto_max || auto_backlog;
    assert(auto_inflight_asked(*get_env, fs, has_auto)) by {
        assert(flag_setting(*get_env, file_auto_inflight(fs), "SCHED_AUTO_INFLIGHT"@, auto_inflight));
        assert(presence_setting(*get_env, file_auto_inflight_max(fs), "SCHED_AUTO_INFLIGHT_MAX"@, auto_max));
        assert(presence_setting(*get_env, file_auto_inflight_backlog_per_slot(fs), "SCHED_AUTO_INFLIGHT_BACKLOG_PER_SLOT"@, auto_backlog));
    }
    (cfg, has_auto)
}

/// Every scheduler setting that the resolution gives is at least 1,
/// whatever the file and the environment hold.
pub proof fn lemma_scheduler_settings_positive<F: Fn(&str) -> Option<String>>(
    get_env: F,
    fs: Option<FileSchedulerConfig>,
    cfg: SchedulerCfg,
)
    requires
        usize_setting(get_env, file_pool_size(fs), "SCHED_POOL_SIZE"@, 420, cfg.pool_size),
        u64_setting(get_env, file_tick_ms(fs), "SCHED_TICK_MS"@, 250, cfg.tick_ms),
        u64_setting(get_env, file_sync_period_sec(fs), "SCHED_SYNC_PERIOD_SEC"@, 2, cfg.sync_period_sec),
        usize_setting(get_env, file_max_queue(fs), "SCHED_MAX_QUEUE"@, 10000, cfg.max_queue),
        usize_setting(get_env, file_max_inflight(fs), "SCHED_MAX_INFLIGHT"@, cfg.pool_size, cfg.max_inflight),
    ensures
        cfg.pool_size >= 1,
        cfg.tick_ms >= 1,
        cfg.sync_period_sec >= 1,
        cfg.max_queue >= 1,
        cfg.max_inflight >= 1,
{
}

} // verus!
