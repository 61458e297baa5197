//! The configuration file: one directive per line, a key and a value.
use vstd::prelude::*;
use vstd::string::*;

use crate::error::MastError;
use crate::number::{self, read_signed, read_unsigned};
use crate::text::{self, content_of_line, has_prefix, lines_of, same_text, split_kv, trimmed, words_of};

verus! {

/// Top-level broker configuration. Paths are text.
#[derive(Debug, Clone)]
pub struct MastConfig {
    pub listeners: Vec<ListenerConfig>,
    pub password_file: Option<String>,
    pub acl_file: Option<String>,
    pub allow_anonymous: bool,
    pub log_level: LogLevel,
    pub log_dest: Vec<LogDest>,
    pub persistence: bool,
    pub persistence_location: Option<String>,
    /// -1 = unlimited
    pub max_connections: i64,
    pub max_inflight_messages: usize,
    pub max_queued_messages: usize,
    pub inference: InferenceConfig,
}

/// One address on which the broker listens.
#[derive(Debug, Clone)]
pub struct ListenerConfig {
    pub port: u16,
    pub bind_addr: Option<String>,
    pub tls: Option<TlsListenerConfig>,
    pub websocket: bool,
}

/// The certificates of a TLS listener.
#[derive(Debug, Clone)]
pub struct TlsListenerConfig {
    pub cafile: Option<String>,
    pub certfile: Option<String>,
    pub keyfile: Option<String>,
    /// Whether clients have to present a certificate.
    pub require_certificate: bool,
}

/// The threat monitor's settings. No directive of the configuration file sets
/// them: they are off unless a caller fills them in.
#[derive(Debug, Clone)]
pub struct InferenceConfig {
    pub enabled: bool,
    pub api_key: String,
    pub model: String,
    pub endpoint: Option<String>,
    pub analysis_interval_secs: u64,
    /// The bits of the 32-bit floating-point confidence from which on a label
    /// counts as a threat.
    pub threat_threshold_bits: u32,
}

#[derive(Debug, Clone, Copy, PartialEq, Eq, Structural)]
pub enum LogLevel {
    Debug,
    Info,
    Notice,
    Warn,
    Error,
}

#[derive(Debug, Clone, PartialEq)]
pub enum LogDest {
    Stdout,
    Stderr,
    File(String),
}

/// What a `MastConfig` holds.
#[verifier::ext_equal]
pub struct ConfigView {
    pub listeners: Seq<ListenerView>,
    pub password_file: Option<Seq<char>>,
    pub acl_file: Option<Seq<char>>,
    pub allow_anonymous: bool,
    pub log_level: LogLevel,
    pub log_dest: Seq<LogDestView>,
    pub persistence: bool,
    pub persistence_location: Option<Seq<char>>,
    pub max_connections: int,
    pub max_inflight_messages: usize,
    pub max_queued_messages: usize,
    pub inference: InferenceView,
}

/// What a `ListenerConfig` holds.
#[verifier::ext_equal]
pub struct ListenerView {
    pub port: u16,
    pub bind_addr: Option<Seq<char>>,
    pub tls: Option<TlsView>,
    pub websocket: bool,
}

/// What a `TlsListenerConfig` holds.
#[verifier::ext_equal]
pub struct TlsView {
    pub cafile: Option<Seq<char>>,
    pub certfile: Option<Seq<char>>,
    pub keyfile: Option<Seq<char>>,
    pub require_certificate: bool,
}

/// What an `InferenceConfig` holds.
#[verifier::ext_equal]
pub struct InferenceView {
    pub enabled: bool,
    pub api_key: Seq<char>,
    pub model: Seq<char>,
    pub endpoint: Option<Seq<char>>,
    pub analysis_interval_secs: u64,
    pub threat_threshold_bits: u32,
}

/// What a `LogDest` holds.
#[verifier::ext_equal]
pub enum LogDestView {
    Stdout,
    Stderr,
    File(Seq<char>),
}

/// The text in an optional string.
pub open spec fn opt_text(o: Option<String>) -> Option<Seq<char>> {
    match o {
        Some(s) => Some(s@),
        None => None,
    }
}

impl View for LogDest {
    type V = LogDestView;

    open spec fn view(&self) -> LogDestView {
        match self {
            LogDest::Stdout => LogDestView::Stdout,
            LogDest::Stderr => LogDestView::Stderr,
            LogDest::File(path) => LogDestView::File(path@),
        }
    }
}

impl View for InferenceConfig {
    type V = InferenceView;

    open spec fn view(&self) -> InferenceView {
        InferenceView {
            enabled: self.enabled,
            api_key: self.api_key@,
            model: self.model@,
            endpoint: opt_text(self.endpoint),
            analysis_interval_secs: self.analysis_interval_secs,
            threat_threshold_bits: self.threat_threshold_bits,
        }
    }
}

impl View for TlsListenerConfig {
    type V = TlsView;

    open spec fn view(&self) -> TlsView {
        TlsView {
            cafile: opt_text(self.cafile),
            certfile: opt_text(self.certfile),
            keyfile: opt_text(self.keyfile),
            require_certificate: self.require_certificate,
        }
    }
}

impl View for ListenerConfig {
    type V = ListenerView;

    open spec fn view(&self) -> ListenerView {
        ListenerView {
            port: self.port,
            bind_addr: opt_text(self.bind_addr),
            tls: match self.tls {
                Some(t) => Some(t@),
                None => None,
            },
            websocket: self.websocket,
        }
    }
}

impl View for MastConfig {
    type V = ConfigView;

    open spec fn view(&self) -> ConfigView {
        ConfigView {
            listeners: Seq::new(self.listeners@.len(), |i: int| self.listeners@[i]@),
            password_file: opt_text(self.password_file),
            acl_file: opt_text(self.acl_file),
            allow_anonymous: self.allow_anonymous,
            log_level: self.log_level,
            log_dest: Seq::new(self.log_dest@.len(), |i: int| self.log_dest@[i]@),
            persistence: self.persistence,
            persistence_location: opt_text(self.persistence_location),
            max_connections: self.max_connections as int,
            max_inflight_messages: self.max_inflight_messages,
            max_queued_messages: self.max_queued_messages,
            inference: self.inference@,
        }
    }
}

/// A plain TCP listener on `port`.
pub open spec fn plain_listener(port: u16, bind_addr: Option<Seq<char>>) -> ListenerView {
    ListenerView { port, bind_addr, tls: None, websocket: false }
}

/// TLS settings that name no file and ask for no client certificate.
pub open spec fn default_tls() -> TlsView {
    TlsView { cafile: None, certfile: None, keyfile: None, require_certificate: false }
}

/// Monitor settings that are off.
pub open spec fn default_inference() -> InferenceView {
    InferenceView {
        enabled: false,
        api_key: Seq::empty(),
        model: Seq::empty(),
        endpoint: None,
        analysis_interval_secs: 0,
        threat_threshold_bits: 0,
    }
}

/// The configuration without any directive.
pub open spec fn default_config() -> ConfigView {
    ConfigView {
        listeners: seq![plain_listener(1883, None)],
        password_file: None,
        acl_file: None,
        allow_anonymous: true,
        log_level: LogLevel::Info,
        log_dest: seq![LogDestView::Stdout],
        persistence: false,
        persistence_location: None,
        max_connections: -1,
        max_inflight_messages: 20,
        max_queued_messages: 1000,
        inference: default_inference(),
    }
}

impl Default for TlsListenerConfig {
    fn default() -> (t: Self)
        ensures
            t@ == default_tls(),
    {
        TlsListenerConfig { cafile: None, certfile: None, keyfile: None, require_certificate: false }
    }
}

impl Default for InferenceConfig {
    fn default() -> (c: Self)
        ensures
            c@ == default_inference(),
    {
        InferenceConfig {
            enabled: false,
            api_key: String::new(),
            model: String::new(),
            endpoint: None,
            analysis_interval_secs: 0,
            threat_threshold_bits: 0,
        }
    }
}

impl Default for MastConfig {
    fn default() -> (c: Self)
        ensures
            c@ == default_config(),
    {
        let mut listeners: Vec<ListenerConfig> = Vec::new();
        listeners.push(ListenerConfig { port: 1883, bind_addr: None, tls: None, websocket: false });
        let mut log_dest: Vec<LogDest> = Vec::new();
        log_dest.push(LogDest::Stdout);
        let c = MastConfig {
            listeners,
            password_file: None,
            acl_file: None,
            allow_anonymous: true,
            log_level: LogLevel::Info,
            log_dest,
            persistence: false,
            persistence_location: None,
            max_connections: -1,
            max_inflight_messages: 20,
            max_queued_messages: 1000,
            inference: InferenceConfig::default(),
        };
        assert(c@ =~= default_config());
        c
    }
}

/// Where reading a configuration file stands: what the directives so far have
/// set, the listener that TLS directives apply to, and whether a log
/// destination was named.
#[verifier::ext_equal]
pub struct Progress {
    pub config: ConfigView,
    pub current: Option<ListenerView>,
    pub log_dest_set: bool,
}

/// Before the first line: the defaults, without a listener.
pub open spec fn initial_progress() -> Progress {
    Progress {
        config: ConfigView { listeners: Seq::empty(), ..default_config() },
        current: None,
        log_dest_set: false,
    }
}

/// The declared listeners, the current one last.
pub open spec fn declared(p: Progress) -> Seq<ListenerView> {
    match p.current {
        Some(l) => p.config.listeners.push(l),
        None => p.config.listeners,
    }
}

/// `listener <port> [<address>]` closes the current listener and opens one.
pub open spec fn listener_directive(p: Progress, value: Seq<char>) -> Result<Progress, Seq<char>> {
    let w = text::words(value);
    if w.len() > 0 && number::unsigned(w[0], u16::MAX as nat) is Some {
        let port = number::unsigned(w[0], u16::MAX as nat)->0 as u16;
        let addr = if w.len() > 1 {
            Some(w[1])
        } else {
            None
        };
        Ok(
            Progress {
                config: ConfigView { listeners: declared(p), ..p.config },
                current: Some(plain_listener(port, addr)),
                ..p
            },
        )
    } else {
        Err("Invalid port: '"@ + value + "'"@)
    }
}

/// The TLS settings of a listener, which the first TLS directive creates.
pub open spec fn tls_of(l: ListenerView) -> TlsView {
    match l.tls {
        Some(t) => t,
        None => default_tls(),
    }
}

/// A change to the current listener; without one the directive has no effect.
pub open spec fn listener_setting(p: Progress, key: Seq<char>, value: Seq<char>) -> Progress {
    match p.current {
        None => p,
        Some(l) => {
            let changed = if key == "cafile"@ {
                ListenerView { tls: Some(TlsView { cafile: Some(value), ..tls_of(l) }), ..l }
            } else if key == "certfile"@ {
                ListenerView { tls: Some(TlsView { certfile: Some(value), ..tls_of(l) }), ..l }
            } else if key == "keyfile"@ {
                ListenerView { tls: Some(TlsView { keyfile: Some(value), ..tls_of(l) }), ..l }
            } else {
                ListenerView { websocket: value == "true"@ || value == "websockets"@, ..l }
            };
            Progress { current: Some(changed), ..p }
        },
    }
}

/// The level that a log level directive names.
pub open spec fn level_named(value: Seq<char>) -> LogLevel {
    if value == "debug"@ || value == "all"@ {
        LogLevel::Debug
    } else if value == "information"@ || value == "info"@ {
        LogLevel::Info
    } else if value == "notice"@ {
        LogLevel::Notice
    } else if value == "warning"@ || value == "warn"@ {
        LogLevel::Warn
    } else if value == "error"@ {
        LogLevel::Error
    } else {
        LogLevel::Info
    }
}

/// The destination that a log destination directive names, if it names one.
pub open spec fn dest_named(value: Seq<char>) -> Option<LogDestView> {
    if value == "stdout"@ {
        Some(LogDestView::Stdout)
    } else if value == "stderr"@ {
        Some(LogDestView::Stderr)
    } else if text::starts_with(value, "file "@) {
        Some(LogDestView::File(text::trim(value.skip(5))))
    } else {
        None
    }
}

/// The first log destination directive drops the default destination; one
/// that names no known destination adds none.
pub open spec fn log_dest_directive(p: Progress, value: Seq<char>) -> Progress {
    let kept = if p.log_dest_set {
        p.config.log_dest
    } else {
        Seq::empty()
    };
    let dests = match dest_named(value) {
        Some(d) => kept.push(d),
        None => kept,
    };
    Progress { config: ConfigView { log_dest: dests, ..p.config }, log_dest_set: true, ..p }
}

/// The number of messages that `value` writes, or `default`.
pub open spec fn count_or(value: Seq<char>, default: usize) -> usize {
    match number::unsigned(value, usize::MAX as nat) {
        Some(n) => n as usize,
        None => default,
    }
}

/// A directive that sets one field of the configuration as a whole. A key that
/// is not known sets nothing.
pub open spec fn global_setting(c: ConfigView, key: Seq<char>, value: Seq<char>) -> ConfigView {
    if key == "password_file"@ {
        ConfigView { password_file: Some(value), ..c }
    } else if key == "acl_file"@ {
        ConfigView { acl_file: Some(value), ..c }
    } else if key == "log_type"@ || key == "log_level"@ {
        ConfigView { log_level: level_named(value), ..c }
    } else if key == "persistence"@ {
        ConfigView { persistence: value == "true"@, ..c }
    } else if key == "persistence_location"@ {
        ConfigView { persistence_location: Some(value), ..c }
    } else if key == "max_connections"@ {
        ConfigView {
            max_connections: match number::signed(value) {
                Some(n) => n,
                None => -1,
            },
            ..c
        }
    } else if key == "max_inflight_messages"@ {
        ConfigView { max_inflight_messages: count_or(value, 20), ..c }
    } else if key == "max_queued_messages"@ {
        ConfigView { max_queued_messages: count_or(value, 1000), ..c }
    } else {
        c
    }
}

/// What a directive does, or the message with which it is refused.
pub open spec fn directive(p: Progress, key: Seq<char>, value: Seq<char>) -> Result<
    Progress,
    Seq<char>,
> {
    if key == "listener"@ {
        listener_directive(p, value)
    } else if key == "cafile"@ || key == "certfile"@ || key == "keyfile"@ || key == "websocket"@
        || key == "protocol"@ {
        Ok(listener_setting(p, key, value))
    } else if key == "allow_anonymous"@ {
        if value == "true"@ {
            Ok(Progress { config: ConfigView { allow_anonymous: true, ..p.config }, ..p })
        } else if value == "false"@ {
            Ok(Progress { config: ConfigView { allow_anonymous: false, ..p.config }, ..p })
        } else {
            Err("Expected true/false for allow_anonymous, got '"@ + value + "'"@)
        }
    } else if key == "log_dest"@ {
        Ok(log_dest_directive(p, value))
    } else {
        Ok(Progress { config: global_setting(p.config, key, value), ..p })
    }
}

/// What one line of the file does.
pub open spec fn line_effect(p: Progress, line: Seq<char>) -> Result<Progress, Seq<char>> {
    if text::is_remark(line) {
        Ok(p)
    } else {
        let kv = text::key_value(text::trim(line));
        directive(p, kv.0, kv.1)
    }
}

/// What lines do, one after the other; or the number, counted from 1, of the
/// first line that is refused, and the message.
pub open spec fn lines_effect(p: Progress, ls: Seq<Seq<char>>) -> Result<
    Progress,
    (nat, Seq<char>),
>
    decreases ls.len(),
{
    if ls.len() == 0 {
        Ok(p)
    } else {
        match lines_effect(p, ls.drop_last()) {
            Ok(q) => match line_effect(q, ls.last()) {
                Ok(r) => Ok(r),
                Err(message) => Err((ls.len(), message)),
            },
            Err(e) => Err(e),
        }
    }
}

proof fn lemma_refusal_stays(p: Progress, ls: Seq<Seq<char>>, n: int)
    requires
        0 <= n <= ls.len(),
        lines_effect(p, ls.take(n)) is Err,
    ensures
        lines_effect(p, ls) == lines_effect(p, ls.take(n)),
    decreases ls.len(),
{
    if n == ls.len() {
        assert(ls.take(n) =~= ls);
    } else {
        assert(ls.drop_last().take(n) =~= ls.take(n));
        lemma_refusal_stays(p, ls.drop_last(), n);
    }
}

/// The configuration after the last line. Without a declared listener there is
/// the default one.
pub open spec fn finished(p: Progress) -> ConfigView {
    ConfigView {
        listeners: if declared(p).len() == 0 {
            seq![plain_listener(1883, None)]
        } else {
            declared(p)
        },
        ..p.config
    }
}

/// What a configuration file says: the configuration, or the number of the
/// first line that is refused and the message.
pub open spec fn config_of(content: Seq<char>) -> Result<ConfigView, (nat, Seq<char>)> {
    match lines_effect(initial_progress(), text::lines(content)) {
        Ok(p) => Ok(finished(p)),
        Err(e) => Err(e),
    }
}

struct Reader {
    config: MastConfig,
    current: Option<ListenerConfig>,
    log_dest_set: bool,
}

impl View for Reader {
    type V = Progress;

    closed spec fn view(&self) -> Progress {
        Progress {
            config: self.config@,
            current: match self.current {
                Some(l) => Some(l@),
                None => None,
            },
            log_dest_set: self.log_dest_set,
        }
    }
}

fn quoted(before: &str, value: &str) -> (s: String)
    ensures
        s@ == before@ + value@ + "'"@,
{
    before.to_string().concat(value).concat("'")
}

impl Reader {
    fn close_listener(&mut self)
        ensures
            final(self)@ == (Progress {
                config: ConfigView { listeners: declared(old(self)@), ..old(self)@.config },
                current: None,
                ..old(self)@
            }),
    {
        match self.current.take() {
            Some(l) => {
                self.config.listeners.push(l);
                assert(self.config@.listeners =~= declared(old(self)@));
            },
            None => {},
        }
        assert(self.config@.listeners =~= declared(old(self)@));
    }

    fn open_listener(self, value: &str) -> (r: Result<Reader, String>)
        ensures
            match (r, listener_directive(self@, value@)) {
                (Ok(q), Ok(v)) => q@ == v,
                (Err(m), Err(w)) => m@ == w,
                _ => false,
            },
    {
        let mut this = self;
        let parts = words_of(value);
        let ghost w = text::words(value@);
        assert(text::texts(parts@) == w);
        assert(parts@.len() == w.len());
        if parts.len() == 0 {
            return Err(quoted("Invalid port: '", value));
        }
        assert(w[0] == parts@[0]@);
        match read_unsigned(parts[0], 65535) {
            Some(port) => {
                this.close_listener();
                let mut bind_addr: Option<String> = None;
                if parts.len() > 1 {
                    assert(w[1] == parts@[1]@);
                    bind_addr = Some(parts[1].to_string());
                }
                this.current = Some(
                    ListenerConfig { port: port as u16, bind_addr, tls: None, websocket: false },
                );
                Ok(this)
            },
            None => Err(quoted("Invalid port: '", value)),
        }
    }

    fn set_on_listener(self, key: &str, value: &str) -> (r: Reader)
        ensures
            r@ == listener_setting(self@, key@, value@),
    {
        let mut this = self;
        match this.current.take() {
            None => this,
            Some(l) => {
                let mut l = l;
                let ca = same_text(key, "cafile");
                let cert = same_text(key, "certfile");
                let keyfile = same_text(key, "keyfile");
                if ca || cert || keyfile {
                    let mut t = match l.tls.take() {
                        Some(t) => t,
                        None => TlsListenerConfig::default(),
                    };
                    let path = Some(value.to_string());
                    if ca {
                        t.cafile = path;
                    } else if cert {
                        t.certfile = path;
                    } else {
                        t.keyfile = path;
                    }
                    l.tls = Some(t);
                } else {
                    l.websocket = same_text(value, "true") || same_text(value, "websockets");
                }
                this.current = Some(l);
                this
            },
        }
    }

    fn add_log_dest(self, value: &str) -> (r: Reader)
        ensures
            r@ == log_dest_directive(self@, value@),
    {
        let mut this = self;
        if !this.log_dest_set {
            this.config.log_dest = Vec::new();
            this.log_dest_set = true;
            assert(this.config@.log_dest =~= Seq::empty());
        }
        let ghost kept = this.config@.log_dest;
        if same_text(value, "stdout") {
            this.config.log_dest.push(LogDest::Stdout);
            assert(this.config@.log_dest =~= kept.push(LogDestView::Stdout));
        } else if same_text(value, "stderr") {
            this.config.log_dest.push(LogDest::Stderr);
            assert(this.config@.log_dest =~= kept.push(LogDestView::Stderr));
        } else if has_prefix(value, "file ") {
            proof {
                reveal_strlit("file ");
            }
            let n = value.unicode_len();
            let rest = value.substring_char(5, n);
            assert(rest@ =~= value@.skip(5));
            let path = trimmed(rest);
            this.config.log_dest.push(LogDest::File(path.to_string()));
            assert(this.config@.log_dest =~= kept.push(LogDestView::File(path@)));
        }
        this
    }

    fn set_global(self, key: &str, value: &str) -> (r: Reader)
        ensures
            r@ == (Progress { config: global_setting(self@.config, key@, value@), ..self@ }),
    {
        let mut this = self;
        if same_text(key, "password_file") {
            this.config.password_file = Some(value.to_string());
        } else if same_text(key, "acl_file") {
            this.config.acl_file = Some(value.to_string());
        } else if same_text(key, "log_type") || same_text(key, "log_level") {
            this.config.log_level = level_of(value);
        } else if same_text(key, "persistence") {
            this.config.persistence = same_text(value, "true");
        } else if same_text(key, "persistence_location") {
            this.config.persistence_location = Some(value.to_string());
        } else if same_text(key, "max_connections") {
            this.config.max_connections = match read_signed(value) {
                Some(n) => n,
                None => -1,
            };
        } else if same_text(key, "max_inflight_messages") {
            this.config.max_inflight_messages = read_count(value, 20);
        } else if same_text(key, "max_queued_messages") {
            this.config.max_queued_messages = read_count(value, 1000);
        }
        this
    }

    fn apply(self, key: &str, value: &str) -> (r: Result<Reader, String>)
        ensures
            match (r, directive(self@, key@, value@)) {
                (Ok(q), Ok(v)) => q@ == v,
                (Err(m), Err(w)) => m@ == w,
                _ => false,
            },
    {
        if same_text(key, "listener") {
            self.open_listener(value)
        } else if same_text(key, "cafile") || same_text(key, "certfile") || same_text(
            key,
            "keyfile",
        ) || same_text(key, "websocket") || same_text(key, "protocol") {
            Ok(self.set_on_listener(key, value))
        } else if same_text(key, "allow_anonymous") {
            let mut this = self;
            if same_text(value, "true") {
                this.config.allow_anonymous = true;
                Ok(this)
            } else if same_text(value, "false") {
                this.config.allow_anonymous = false;
                Ok(this)
            } else {
                Err(quoted("Expected true/false for allow_anonymous, got '", value))
            }
        } else if same_text(key, "log_dest") {
            Ok(self.add_log_dest(value))
        } else {
            Ok(self.set_global(key, value))
        }
    }

    fn read_line(self, raw: &str) -> (r: Result<Reader, String>)
        ensures
            match (r, line_effect(self@, raw@)) {
                (Ok(q), Ok(v)) => q@ == v,
                (Err(m), Err(w)) => m@ == w,
                _ => false,
            },
    {
        match content_of_line(raw) {
            None => Ok(self),
            Some(line) => {
                let (key, value) = split_kv(line);
                self.apply(key, value)
            },
        }
    }
}

fn level_of(value: &str) -> (level: LogLevel)
    ensures
        level == level_named(value@),
{
    if same_text(value, "debug") || same_text(value, "all") {
        LogLevel::Debug
    } else if same_text(value, "information") || same_text(value, "info") {
        LogLevel::Info
    } else if same_text(value, "notice") {
        LogLevel::Notice
    } else if same_text(value, "warning") || same_text(value, "warn") {
        LogLevel::Warn
    } else if same_text(value, "error") {
        LogLevel::Error
    } else {
        LogLevel::Info
    }
}

fn read_count(value: &str, default: usize) -> (n: usize)
    ensures
        n == count_or(value@, default),
{
    match read_unsigned(value, usize::MAX as u64) {
        Some(n) => n as usize,
        None => default,
    }
}

impl MastConfig {
    /// Reads a configuration file.
    pub fn parse(content: &str) -> (r: Result<MastConfig, MastError>)
        ensures
            match (r, config_of(content@)) {
                (Ok(c), Ok(v)) => c@ == v,
                (Err(MastError::ConfigParse { line, message }), Err((n, m))) => line == n
                    && message@ == m,
                _ => false,
            },
    {
        let ls = lines_of(content);
        let ghost texts = text::lines(content@);
        let mut config = MastConfig::default();
        config.listeners = Vec::new();
        let mut reader = Reader { config, current: None, log_dest_set: false };
        assert(reader@ =~= initial_progress());
        assert(texts.take(0) =~= Seq::empty());
        let mut i: usize = 0;
        while i < ls.len()
            invariant
                i <= ls.len(),
                text::texts(ls@) == texts,
                lines_effect(initial_progress(), texts.take(i as int)) == Ok::<
                    Progress,
                    (nat, Seq<char>),
                >(reader@),
                texts == text::lines(content@),
            decreases ls.len() - i,
        {
            assert(texts[i as int] == ls@[i as int]@);
            assert(texts.take(i + 1).drop_last() =~= texts.take(i as int));
            match reader.read_line(ls[i]) {
                Ok(next) => {
                    reader = next;
                },
                Err(message) => {
                    proof {
                        lemma_refusal_stays(initial_progress(), texts, i + 1);
                    }
                    return Err(MastError::ConfigParse { line: i + 1, message });
                },
            }
            i += 1;
        }
        assert(texts.take(i as int) =~= texts);
        reader.close_listener();
        let mut config = reader.config;
        if config.listeners.len() == 0 {
            config.listeners.push(
                ListenerConfig { port: 1883, bind_addr: None, tls: None, websocket: false },
            );
            assert(config@.listeners =~= seq![plain_listener(1883, None)]);
        }
        Ok(config)
    }
}

} // verus!
