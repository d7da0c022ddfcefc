//! Environment-driven configuration.
//!
//! Rules:
//! - Required variables fail fast at startup with the variable *name* only;
//!   secret values are never echoed into logs or errors.
//! - The Protect webhook must be HTTPS with normal certificate validation.
//!   Plain HTTP is permitted only toward loopback addresses (local testing).
//! - Every tunable has a safe default; zero disables optional behaviours.

use vstd::hash_map::StringHashMap;
use vstd::pervasive::unreached;
use vstd::prelude::*;

use crate::clock::Duration;
use crate::clock::NANOS_PER_SEC;
use crate::text::chars_of;
use crate::text::decimal;
use crate::text::decimal_text;
use crate::text::is_space;
use crate::text::is_space_char;
use crate::text::lemma_numbers_are_read;
use crate::text::lowered;
use crate::text::parse_whole;
use crate::text::same;
use crate::text::string_of;
use crate::text::to_lower;
use crate::text::trim;
use crate::text::trimmed;
use crate::text::whole_number;
use crate::text::IntError;
use crate::weburl::is_plain_char;
use crate::weburl::is_plain_path;
use crate::weburl::is_private;
use crate::weburl::is_url_error;
use crate::weburl::is_web;
use crate::weburl::rebased;
use crate::weburl::url_join;
use crate::weburl::url_parse;
use crate::weburl::Url;
use crate::weburl::UrlView;

verus! {

/// The texts that a vector of strings holds.
pub open spec fn texts(v: Seq<String>) -> Seq<Seq<char>> {
    v.map_values(|s: String| s@)
}

/// How event types are compared: without surrounding white space, in lower
/// case.
pub open spec fn normalised(s: Seq<char>) -> Seq<char> {
    lowered(trimmed(s))
}

/// What stands between the commas of `csv`.
pub open spec fn fields(csv: Seq<char>) -> Seq<Seq<char>>
    decreases csv.len(),
{
    if csv.len() == 0 {
        seq![Seq::empty()]
    } else {
        let before = fields(csv.drop_last());
        if csv.last() == ',' {
            before.push(Seq::empty())
        } else {
            before.drop_last().push(before.last().push(csv.last()))
        }
    }
}

/// The normalised fields that are not empty.
pub open spec fn listed(csv: Seq<char>) -> Seq<Seq<char>> {
    kept(fields(csv))
}

pub open spec fn kept(fields: Seq<Seq<char>>) -> Seq<Seq<char>>
    decreases fields.len(),
{
    if fields.len() == 0 {
        Seq::empty()
    } else {
        let before = kept(fields.drop_last());
        let last = normalised(fields.last());
        if last.len() == 0 {
            before
        } else {
            before.push(last)
        }
    }
}

/// The event types taken for fire where none are configured.
pub open spec fn default_types() -> Seq<Seq<char>> {
    seq!["firedetection"@, "fire_detection"@, "firealarm"@]
}

/// Case-insensitive matcher for fire-relevant `eventType` values.
#[derive(Debug, Clone)]
pub struct FireMatcher {
    types: Vec<String>,
}

impl View for FireMatcher {
    type V = Seq<Seq<char>>;

    closed spec fn view(&self) -> Seq<Seq<char>> {
        texts(self.types@)
    }
}

/// Push the normalised field `chars[from..to]`, unless it is empty.
fn push_field(types: &mut Vec<String>, chars: &Vec<char>, from: usize, to: usize)
    requires
        from <= to <= chars@.len(),
    ensures
        ({
            let field = normalised(chars@.subrange(from as int, to as int));
            texts(final(types)@) == if field.len() == 0 {
                texts(old(types)@)
            } else {
                texts(old(types)@).push(field)
            }
        }),
{
    let field = to_lower(trim(string_of(chars, from, to).as_str()).as_str());
    let ghost before = types@;
    if chars_of(field.as_str()).len() > 0 {
        types.push(field);
        assert(texts(types@) =~= texts(before).push(field@));
    }
}

impl FireMatcher {
    pub const DEFAULT_TYPES: [&'static str; 3] = ["firedetection", "fire_detection", "firealarm"];

    /// Read a comma-separated list of event types.
    pub fn from_csv(csv: &str) -> (r: Result<Self, ConfigError>)
        ensures
            match r {
                Ok(m) => listed(csv@).len() > 0 && m@ == listed(csv@),
                Err(e) => listed(csv@).len() == 0 && e@ == plain(
                    "FIRE_EVENT_TYPES must list at least one event type"@,
                ),
            },
    {
        let chars = chars_of(csv);
        let mut types: Vec<String> = Vec::new();
        let mut start: usize = 0;
        let mut i: usize = 0;
        assert(texts(types@) =~= kept(Seq::empty()));
        proof {
            assert(chars@.take(0) =~= Seq::empty());
            assert(fields(chars@.take(0)).drop_last() =~= Seq::empty());
            assert(fields(chars@.take(0)).last() =~= chars@.subrange(0, 0));
        }
        while i < chars.len()
            invariant
                start <= i <= chars@.len(),
                fields(chars@.take(i as int)).len() > 0,
                texts(types@) == kept(fields(chars@.take(i as int)).drop_last()),
                fields(chars@.take(i as int)).last() == chars@.subrange(start as int, i as int),
            decreases chars@.len() - i,
        {
            let ghost before = fields(chars@.take(i as int));
            proof {
                assert(chars@.take(i + 1).drop_last() =~= chars@.take(i as int));
            }
            if chars[i] == ',' {
                push_field(&mut types, &chars, start, i);
                start = i + 1;
                proof {
                    let now = fields(chars@.take(i + 1));
                    assert(now.drop_last() =~= before);
                    assert(now.last() =~= chars@.subrange(i + 1, i + 1));
                }
            } else {
                proof {
                    let now = fields(chars@.take(i + 1));
                    assert(now.drop_last() =~= before.drop_last());
                    assert(now.last() =~= chars@.subrange(start as int, i + 1));
                }
            }
            i += 1;
        }
        push_field(&mut types, &chars, start, i);
        assert(chars@.take(i as int) =~= csv@);
        if types.len() == 0 {
            assert(texts(types@).len() == 0);
            return Err(ConfigError::plain("FIRE_EVENT_TYPES must list at least one event type"));
        }
        assert(texts(types@).len() > 0);
        Ok(FireMatcher { types })
    }

    pub fn matches(&self, event_type: &str) -> (r: bool)
        ensures
            r == self@.contains(normalised(event_type@)),
            r == self@.contains(lowered(trimmed(event_type@))),
    {
        let wanted = to_lower(trim(event_type).as_str());
        let mut i: usize = 0;
        while i < self.types.len()
            invariant
                i <= self.types@.len(),
                wanted@ == normalised(event_type@),
                forall|j: int| 0 <= j < i ==> #[trigger] self.types@[j]@ != wanted@,
            decreases self.types@.len() - i,
        {
            if same(self.types[i].as_str(), wanted.as_str()) {
                assert(self@[i as int] == wanted@);
                return true;
            }
            i += 1;
        }
        proof {
            if self@.contains(wanted@) {
                let j = choose|j: int| 0 <= j < self@.len() && self@[j] == wanted@;
                assert(self.types@[j]@ == wanted@);
            }
        }
        false
    }

    /// The matched event types, normalised.
    pub fn types(&self) -> (r: &Vec<String>)
        ensures
            texts(r@) == self@,
    {
        &self.types
    }
}

impl Default for FireMatcher {
    fn default() -> (m: Self)
        ensures
            m@ == default_types(),
            m@ == seq!["firedetection"@, "fire_detection"@, "firealarm"@],
    {
        let mut types: Vec<String> = Vec::new();
        types.push(Self::DEFAULT_TYPES[0].to_owned());
        types.push(Self::DEFAULT_TYPES[1].to_owned());
        types.push(Self::DEFAULT_TYPES[2].to_owned());
        assert(texts(types@) =~= default_types());
        FireMatcher { types }
    }
}

/// Why a configuration is refused: what is wrong, and what a parser said of
/// it.
#[derive(Debug)]
pub struct ConfigError {
    pub context: String,
    pub cause: Option<String>,
}

/// What a `ConfigError` holds.
pub struct Fault {
    pub context: Seq<char>,
    pub cause: Option<Seq<char>>,
}

pub open spec fn plain(context: Seq<char>) -> Fault {
    Fault { context, cause: None }
}

pub open spec fn because(context: Seq<char>, cause: Seq<char>) -> Fault {
    Fault { context, cause: Some(cause) }
}

impl View for ConfigError {
    type V = Fault;

    open spec fn view(&self) -> Fault {
        Fault {
            context: self.context@,
            cause: match self.cause {
                Some(cause) => Some(cause@),
                None => None,
            },
        }
    }
}

impl ConfigError {
    fn plain(context: &str) -> (e: Self)
        ensures
            e@ == plain(context@),
    {
        ConfigError { context: context.to_owned(), cause: None }
    }

    fn because(context: &str, cause: String) -> (e: Self)
        ensures
            e@ == because(context@, cause@),
    {
        ConfigError { context: context.to_owned(), cause: Some(cause) }
    }

    /// The whole error in one line.
    pub fn message(&self) -> (out: String)
        ensures
            out@ == match self@.cause {
                Some(cause) => self@.context + ": "@ + cause,
                None => self@.context,
            },
            self.cause matches Some(cause) ==> out@ == self.context@ + ": "@ + cause@,
            self.cause is None ==> out@ == self.context@,
    {
        let mut out = self.context.clone();
        if let Some(cause) = &self.cause {
            out.append(": ");
            out.append(cause.as_str());
        }
        out
    }
}

/// The variables, by name.
pub type VarMap = Map<Seq<char>, Seq<char>>;

/// The variables that a configuration is read from.
pub struct Vars {
    map: StringHashMap<String>,
}

impl View for Vars {
    type V = VarMap;

    closed spec fn view(&self) -> VarMap {
        self.map@.map_values(|s: String| s@)
    }
}

impl Vars {
    pub fn new() -> (vars: Self)
        ensures
            vars@ == Map::<Seq<char>, Seq<char>>::empty(),
    {
        let vars = Vars { map: StringHashMap::new() };
        assert(vars@ =~= Map::<Seq<char>, Seq<char>>::empty());
        vars
    }

    pub fn insert(&mut self, name: String, value: String)
        ensures
            final(self)@ == old(self)@.insert(name@, value@),
    {
        let ghost before = self@;
        let ghost (n, v) = (name@, value@);
        self.map.insert(name, value);
        assert(self@ =~= before.insert(n, v));
    }

    pub fn remove(&mut self, name: &str)
        ensures
            final(self)@ == old(self)@.remove(name@),
    {
        let ghost before = self@;
        self.map.remove(name);
        assert(self@ =~= before.remove(name@));
    }

    /// The value of a variable, without surrounding white space.
    pub fn get(&self, name: &str) -> (r: Option<String>)
        ensures
            match r {
                Some(value) => var(self@, name@) == Some(value@),
                None => var(self@, name@) is None,
            },
            match r {
                Some(value) => self@.contains_key(name@) && value@ == trimmed(self@[name@]),
                None => !self@.contains_key(name@),
            },
    {
        match self.map.get(name) {
            Some(value) => Some(trim(value.as_str())),
            None => None,
        }
    }

    /// The value of a variable that is there and not empty.
    fn get_filled(&self, name: &str) -> (r: Option<String>)
        ensures
            match r {
                Some(value) => filled(self@, name@) == Some(value@),
                None => filled(self@, name@) is None,
            },
    {
        match self.get(name) {
            Some(value) => if chars_of(value.as_str()).len() == 0 {
                None
            } else {
                Some(value)
            },
            None => None,
        }
    }

    fn get_required(&self, name: &str) -> (r: Result<String, ConfigError>)
        ensures
            match r {
                Ok(value) => required(self@, name@) == Ok::<Seq<char>, Fault>(value@),
                Err(e) => required(self@, name@) == Err::<Seq<char>, Fault>(e@),
            },
    {
        match self.get_filled(name) {
            Some(value) => Ok(value),
            None => {
                let mut context = name.to_owned();
                context.append(" is required and must not be empty");
                Err(ConfigError { context, cause: None })
            },
        }
    }

    fn get_seconds(&self, name: &str, default: u64) -> (r: Result<Duration, ConfigError>)
        ensures
            match r {
                Ok(d) => seconds(self@, name@, default as nat) == Ok::<int, Fault>(
                    d.nanos as int,
                ) && is_showable(d.nanos as int),
                Err(e) => seconds(self@, name@, default as nat) == Err::<int, Fault>(e@),
            },
    {
        match self.get(name) {
            None => Ok(Duration::from_secs(default)),
            Some(raw) => match parse_whole(raw.as_str(), u64::MAX) {
                Ok(n) => Ok(Duration::from_secs(n)),
                Err(e) => {
                    let mut context = name.to_owned();
                    context.append(" must be a whole number of seconds");
                    Err(ConfigError { context, cause: Some(int_error_text(e)) })
                },
            },
        }
    }

    fn get_nonzero_seconds(&self, name: &str, default: u64) -> (r: Result<Duration, ConfigError>)
        ensures
            match r {
                Ok(d) => nonzero_seconds(self@, name@, default as nat) == Ok::<int, Fault>(
                    d.nanos as int,
                ) && is_showable(d.nanos as int),
                Err(e) => nonzero_seconds(self@, name@, default as nat) == Err::<int, Fault>(e@),
            },
    {
        match self.get_seconds(name, default) {
            Err(e) => Err(e),
            Ok(d) => if d.is_zero() {
                let mut context = name.to_owned();
                context.append(" must be greater than zero");
                Err(ConfigError { context, cause: None })
            } else {
                Ok(d)
            },
        }
    }

    fn get_optional_seconds(&self, name: &str, default: u64) -> (r: Result<
        Option<Duration>,
        ConfigError,
    >)
        ensures
            match r {
                Ok(Some(d)) => seconds(self@, name@, default as nat) == Ok::<int, Fault>(
                    d.nanos as int,
                ) && d.nanos != 0 && is_showable(d.nanos as int),
                Ok(None) => seconds(self@, name@, default as nat) == Ok::<int, Fault>(0),
                Err(e) => seconds(self@, name@, default as nat) == Err::<int, Fault>(e@),
            },
    {
        match self.get_seconds(name, default) {
            Err(e) => Err(e),
            Ok(d) => if d.is_zero() {
                Ok(None)
            } else {
                Ok(Some(d))
            },
        }
    }
}

/// The value of a variable, without surrounding white space.
pub open spec fn var(vars: VarMap, name: Seq<char>) -> Option<Seq<char>> {
    if vars.contains_key(name) {
        Some(trimmed(vars[name]))
    } else {
        None
    }
}

pub open spec fn var_or(vars: VarMap, name: Seq<char>, default: Seq<char>) -> Seq<char> {
    match var(vars, name) {
        Some(value) => value,
        None => default,
    }
}

/// The value of a variable that is there and not empty.
pub open spec fn filled(vars: VarMap, name: Seq<char>) -> Option<Seq<char>> {
    match var(vars, name) {
        Some(value) => if value.len() > 0 {
            Some(value)
        } else {
            None
        },
        None => None,
    }
}

pub open spec fn required(vars: VarMap, name: Seq<char>) -> Result<Seq<char>, Fault> {
    match filled(vars, name) {
        Some(value) => Ok(value),
        None => Err(plain(name + " is required and must not be empty"@)),
    }
}

pub open spec fn int_error(e: IntError) -> Seq<char> {
    match e {
        IntError::Empty => "cannot parse integer from empty string"@,
        IntError::InvalidDigit => "invalid digit found in string"@,
        IntError::TooLarge => "number too large to fit in target type"@,
    }
}

fn int_error_text(e: IntError) -> (out: String)
    ensures
        out@ == int_error(e),
{
    match e {
        IntError::Empty => "cannot parse integer from empty string".to_owned(),
        IntError::InvalidDigit => "invalid digit found in string".to_owned(),
        IntError::TooLarge => "number too large to fit in target type".to_owned(),
    }
}

/// A number of seconds, in nanoseconds.
pub open spec fn seconds(vars: VarMap, name: Seq<char>, default: nat) -> Result<int, Fault> {
    match var(vars, name) {
        None => Ok(Duration::of_secs(default)),
        Some(raw) => match whole_number(raw, u64::MAX as nat) {
            Ok(n) => Ok(Duration::of_secs(n)),
            Err(e) => Err(because(name + " must be a whole number of seconds"@, int_error(e))),
        },
    }
}

/// A number of seconds that cannot be zero, in nanoseconds.
pub open spec fn nonzero_seconds(vars: VarMap, name: Seq<char>, default: nat) -> Result<
    int,
    Fault,
> {
    match seconds(vars, name, default) {
        Ok(nanos) => if nanos == 0 {
            Err(plain(name + " must be greater than zero"@))
        } else {
            Ok(nanos)
        },
        Err(f) => Err(f),
    }
}

/// No path, user info or query, and no white space.
pub open spec fn is_bare_host(host: Seq<char>) -> bool {
    forall|i: int|
        #![trigger host[i]]
        0 <= i < host.len() ==> host[i] != '/' && host[i] != '@' && host[i] != '?' && host[i] != '#'
            && host[i] != '\\' && !is_space(host[i])
}

fn check_bare_host(host: &str) -> (r: bool)
    ensures
        r == is_bare_host(host@),
{
    let chars = chars_of(host);
    let mut i: usize = 0;
    while i < chars.len()
        invariant
            i <= chars@.len(),
            chars@ == host@,
            is_bare_host(chars@.take(i as int)),
        decreases chars@.len() - i,
    {
        let c = chars[i];
        if c == '/' || c == '@' || c == '?' || c == '#' || c == '\\' || is_space_char(c) {
            assert(chars@[i as int] == c);
            return false;
        }
        i += 1;
        proof {
            assert(chars@.take(i as int) =~= chars@.take(i - 1).push(c));
        }
    }
    assert(chars@.take(i as int) =~= chars@);
    true
}

/// The camera's alert stream.
pub open spec fn camera_url(vars: VarMap) -> Result<UrlView, Fault> {
    let scheme = var_or(vars, "HIKVISION_SCHEME"@, "http"@);
    if scheme != "http"@ && scheme != "https"@ {
        Err(plain("HIKVISION_SCHEME must be http or https"@))
    } else {
        match required(vars, "HIKVISION_HOST"@) {
            Err(f) => Err(f),
            Ok(host) => if !is_bare_host(host) {
                Err(
                    plain(
                        "HIKVISION_HOST must be a bare host or host:port (no path, userinfo, or query)"@,
                    ),
                )
            } else {
                match url_parse(
                    scheme + "://"@ + host + "/ISAPI/Event/notification/alertStream"@,
                ) {
                    Ok(url) => Ok(url),
                    Err(e) => Err(because("HIKVISION_HOST is not a valid host"@, e)),
                }
            },
        }
    }
}

fn read_camera_url(vars: &Vars) -> (r: Result<Url, ConfigError>)
    ensures
        match r {
            Ok(url) => camera_url(vars@) == Ok::<UrlView, Fault>(url@),
            Err(e) => camera_url(vars@) == Err::<UrlView, Fault>(e@),
        },
        r matches Err(e) ==> is_fixed(e@),
{
    proof {
        lemma_required_is_fixed(vars@, "HIKVISION_HOST"@);
    }
    let scheme = match vars.get("HIKVISION_SCHEME") {
        Some(scheme) => scheme,
        None => "http".to_owned(),
    };
    if !same(scheme.as_str(), "http") && !same(scheme.as_str(), "https") {
        return Err(ConfigError::plain("HIKVISION_SCHEME must be http or https"));
    }
    let host = match vars.get_required("HIKVISION_HOST") {
        Ok(host) => host,
        Err(e) => return Err(e),
    };
    // A bare host or host:port only. Anything else (userinfo, path, query)
    // would silently change the request target and could leak into error
    // strings.
    if !check_bare_host(host.as_str()) {
        return Err(
            ConfigError::plain(
                "HIKVISION_HOST must be a bare host or host:port (no path, userinfo, or query)",
            ),
        );
    }
    let mut text = scheme;
    text.append("://");
    text.append(host.as_str());
    text.append("/ISAPI/Event/notification/alertStream");
    match Url::parse(text.as_str()) {
        Ok(url) => Ok(url),
        Err(e) => Err(ConfigError::because("HIKVISION_HOST is not a valid host", e)),
    }
}

/// Where the Alarm Manager takes incoming webhooks.
pub const WEBHOOK_PATH: &'static str = "/proxy/protect/integration/v1/alarm-manager/webhook/";

pub open spec fn is_webhook_id(id: Seq<char>) -> bool {
    forall|i: int| 0 <= i < id.len() ==> is_plain_char(#[trigger] id[i])
}

fn check_webhook_id(id: &str) -> (r: bool)
    ensures
        r == is_webhook_id(id@),
{
    let chars = chars_of(id);
    let mut i: usize = 0;
    while i < chars.len()
        invariant
            i <= chars@.len(),
            chars@ == id@,
            is_webhook_id(chars@.take(i as int)),
        decreases chars@.len() - i,
    {
        let c = chars[i];
        let letter = ('a' <= c && c <= 'z') || ('A' <= c && c <= 'Z');
        let digit = '0' <= c && c <= '9';
        if !(letter || digit || c == '-' || c == '_') {
            assert(!is_plain_char(chars@[i as int]));
            return false;
        }
        i += 1;
        proof {
            assert(chars@.take(i as int) =~= chars@.take(i - 1).push(c));
        }
    }
    assert(chars@.take(i as int) =~= chars@);
    true
}

proof fn lemma_webhook_path_is_plain(id: Seq<char>)
    requires
        is_webhook_id(id),
    ensures
        is_plain_path(WEBHOOK_PATH@ + id),
{
    reveal_strlit("/proxy/protect/integration/v1/alarm-manager/webhook/");
    let n = WEBHOOK_PATH@.len();
    assert forall|i: int| 0 <= i < n + id.len() implies is_plain_char(
        #[trigger] (WEBHOOK_PATH@ + id)[i],
    ) || (WEBHOOK_PATH@ + id)[i] == '/' by {
        if i >= n {
            assert((WEBHOOK_PATH@ + id)[i] == id[i - n]);
        }
    }
}

/// The incoming webhook: given in full, or built from the base URL and the ID.
pub open spec fn webhook_url(vars: VarMap) -> Result<UrlView, Fault> {
    match filled(vars, "PROTECT_WEBHOOK_URL"@) {
        Some(full) => match url_parse(full) {
            Ok(url) => Ok(url),
            Err(e) => Err(because("PROTECT_WEBHOOK_URL is not a valid URL"@, e)),
        },
        None => match required(vars, "PROTECT_BASE_URL"@) {
            Err(f) => Err(f),
            Ok(base) => match url_parse(base) {
                Err(e) => Err(because("PROTECT_BASE_URL is not a valid URL"@, e)),
                Ok(_) => match required(vars, "PROTECT_WEBHOOK_ID"@) {
                    Err(f) => Err(f),
                    Ok(id) => if !is_webhook_id(id) {
                        Err(
                            plain(
                                "PROTECT_WEBHOOK_ID may contain only letters, digits, '-' and '_' (set PROTECT_WEBHOOK_URL for a full custom URL)"@,
                            ),
                        )
                    } else {
                        match url_join(base, WEBHOOK_PATH@ + id) {
                            Ok(url) => Ok(url),
                            Err(e) => Err(
                                because("could not build webhook URL from PROTECT_BASE_URL"@, e),
                            ),
                        }
                    },
                },
            },
        },
    }
}

/// `url` is on the server of the base URL, and its path is the webhook path
/// with the configured ID.
pub open spec fn built_on_base(vars: VarMap, url: UrlView) -> bool {
    let base = url_parse(required(vars, "PROTECT_BASE_URL"@)->Ok_0)->Ok_0;
    is_web(base) ==> rebased(
        base,
        WEBHOOK_PATH@ + required(vars, "PROTECT_WEBHOOK_ID"@)->Ok_0,
        url,
    )
}

fn read_webhook_url(vars: &Vars) -> (r: Result<Url, ConfigError>)
    ensures
        match r {
            Ok(url) => webhook_url(vars@) == Ok::<UrlView, Fault>(url@),
            Err(e) => webhook_url(vars@) == Err::<UrlView, Fault>(e@),
        },
        r matches Err(e) ==> is_fixed(e@),
        r is Ok && filled(vars@, "PROTECT_WEBHOOK_URL"@) is None ==> built_on_base(
            vars@,
            r->Ok_0@,
        ),
{
    proof {
        lemma_required_is_fixed(vars@, "PROTECT_BASE_URL"@);
        lemma_required_is_fixed(vars@, "PROTECT_WEBHOOK_ID"@);
    }
    if let Some(full) = vars.get_filled("PROTECT_WEBHOOK_URL") {
        return match Url::parse(full.as_str()) {
            Ok(url) => Ok(url),
            Err(e) => Err(ConfigError::because("PROTECT_WEBHOOK_URL is not a valid URL", e)),
        };
    }
    let base = match vars.get_required("PROTECT_BASE_URL") {
        Ok(base) => base,
        Err(e) => return Err(e),
    };
    if let Err(e) = Url::parse(base.as_str()) {
        return Err(ConfigError::because("PROTECT_BASE_URL is not a valid URL", e));
    }
    let id = match vars.get_required("PROTECT_WEBHOOK_ID") {
        Ok(id) => id,
        Err(e) => return Err(e),
    };
    // The ID lands in a URL path: restrict its alphabet so a value like
    // `../..` cannot be path-normalised into a different endpoint. Use
    // PROTECT_WEBHOOK_URL for exotic Protect paths instead.
    if !check_webhook_id(id.as_str()) {
        return Err(
            ConfigError::plain(
                "PROTECT_WEBHOOK_ID may contain only letters, digits, '-' and '_' (set PROTECT_WEBHOOK_URL for a full custom URL)",
            ),
        );
    }
    let mut path = WEBHOOK_PATH.to_owned();
    path.append(id.as_str());
    proof {
        lemma_webhook_path_is_plain(id@);
    }
    match Url::join(base.as_str(), path.as_str()) {
        Ok(url) => Ok(url),
        Err(e) => Err(
            ConfigError::because("could not build webhook URL from PROTECT_BASE_URL", e),
        ),
    }
}

/// The URL probed for the Protect path: the base URL, or the root of the
/// webhook's server.
pub open spec fn probe_url(vars: VarMap) -> Result<UrlView, Fault> {
    match filled(vars, "PROTECT_BASE_URL"@) {
        Some(base) => match url_parse(base) {
            Ok(url) => Ok(url),
            Err(e) => Err(because("PROTECT_BASE_URL is not a valid URL"@, e)),
        },
        None => Ok(url_join(filled(vars, "PROTECT_WEBHOOK_URL"@)->0, "/"@)->Ok_0),
    }
}

/// The root of the server that `text`, a web URL, points to.
fn origin_of(text: &str) -> (url: Url)
    requires
        url_parse(text@) is Ok,
        is_web(url_parse(text@)->Ok_0),
    ensures
        url_join(text@, "/"@) == Ok::<UrlView, Seq<char>>(url@),
        rebased(url_parse(text@)->Ok_0, "/"@, url@),
{
    proof {
        reveal_strlit("/");
    }
    match Url::join(text, "/") {
        Ok(url) => url,
        Err(_) => unreached(),
    }
}

fn read_probe_url(vars: &Vars) -> (r: Result<Url, ConfigError>)
    requires
        webhook_url(vars@) is Ok,
        is_private(webhook_url(vars@)->Ok_0),
    ensures
        match r {
            Ok(url) => probe_url(vars@) == Ok::<UrlView, Fault>(url@),
            Err(e) => probe_url(vars@) == Err::<UrlView, Fault>(e@),
        },
        r matches Err(e) ==> is_fixed(e@),
        r is Ok && filled(vars@, "PROTECT_BASE_URL"@) is None ==> rebased(
            webhook_url(vars@)->Ok_0,
            "/"@,
            r->Ok_0@,
        ),
{
    match vars.get_filled("PROTECT_BASE_URL") {
        Some(base) => match Url::parse(base.as_str()) {
            Ok(url) => Ok(url),
            Err(e) => Err(ConfigError::because("PROTECT_BASE_URL is not a valid URL", e)),
        },
        None => match vars.get_filled("PROTECT_WEBHOOK_URL") {
            Some(full) => Ok(origin_of(full.as_str())),
            None => unreached(),
        },
    }
}

pub open spec fn not_private(what: Seq<char>) -> Fault {
    plain(
        what
            + " must use https (plain http is allowed only toward loopback, for testing)"@,
    )
}

pub fn require_https_or_loopback(url: &Url, what: &str) -> (r: Result<(), ConfigError>)
    ensures
        match r {
            Ok(()) => is_private(url@),
            Err(e) => !is_private(url@) && e@ == not_private(what@),
        },
        r matches Err(e) ==> e@.cause is None && e@.context == what@
            + " must use https (plain http is allowed only toward loopback, for testing)"@,
{
    if url.is_https_or_loopback() {
        return Ok(());
    }
    let mut context = what.to_owned();
    context.append(" must use https (plain http is allowed only toward loopback, for testing)");
    Err(ConfigError { context, cause: None })
}

/// Every character may stand in the value of an HTTP header.
pub open spec fn is_header_text(s: Seq<char>) -> bool {
    forall|i: int|
        0 <= i < s.len() ==> (' ' <= #[trigger] s[i] && s[i] != '\u{7f}') || s[i] == '\t'
}

/// `reqwest::header::HeaderValue::from_str` refuses a text with a byte below
/// 32 other than a tab, or with the byte 127, and accepts every other one; its
/// error says one thing only. Bytes from 128 on stand for non-ASCII
/// characters, so the same holds of the characters.
#[verifier::external_body]
fn check_header_value(text: &str) -> (r: Result<(), String>)
    ensures
        match r {
            Ok(()) => is_header_text(text@),
            Err(e) => !is_header_text(text@) && e@ == "failed to parse header value"@,
        },
{
    reqwest::header::HeaderValue::from_str(text).map(|_| ()).map_err(|e| e.to_string())
}

pub open spec fn api_key(vars: VarMap) -> Result<Seq<char>, Fault> {
    match required(vars, "PROTECT_API_KEY"@) {
        Err(f) => Err(f),
        Ok(key) => if is_header_text(key) {
            Ok(key)
        } else {
            Err(
                because(
                    "PROTECT_API_KEY contains characters not permitted in an HTTP header"@,
                    "failed to parse header value"@,
                ),
            )
        },
    }
}

fn read_api_key(vars: &Vars) -> (r: Result<String, ConfigError>)
    ensures
        match r {
            Ok(key) => api_key(vars@) == Ok::<Seq<char>, Fault>(key@),
            Err(e) => api_key(vars@) == Err::<Seq<char>, Fault>(e@),
        },
{
    match vars.get_required("PROTECT_API_KEY") {
        Err(e) => Err(e),
        Ok(key) => match check_header_value(key.as_str()) {
            Ok(()) => Ok(key),
            Err(e) => Err(
                ConfigError::because(
                    "PROTECT_API_KEY contains characters not permitted in an HTTP header",
                    e,
                ),
            ),
        },
    }
}

pub open spec fn fire_types(vars: VarMap) -> Result<Seq<Seq<char>>, Fault> {
    match filled(vars, "FIRE_EVENT_TYPES"@) {
        Some(csv) => if listed(csv).len() > 0 {
            Ok(listed(csv))
        } else {
            Err(plain("FIRE_EVENT_TYPES must list at least one event type"@))
        },
        None => Ok(default_types()),
    }
}

fn read_fire_matcher(vars: &Vars) -> (r: Result<FireMatcher, ConfigError>)
    ensures
        match r {
            Ok(m) => fire_types(vars@) == Ok::<Seq<Seq<char>>, Fault>(m@),
            Err(e) => fire_types(vars@) == Err::<Seq<Seq<char>>, Fault>(e@),
        },
{
    match vars.get_filled("FIRE_EVENT_TYPES") {
        Some(csv) => FireMatcher::from_csv(csv.as_str()),
        None => Ok(FireMatcher::default()),
    }
}

pub open spec fn webhook_attempts(vars: VarMap) -> Result<nat, Fault> {
    match var(vars, "WEBHOOK_ATTEMPTS"@) {
        None => Ok(3),
        Some(raw) => match whole_number(raw, u32::MAX as nat) {
            Err(e) => Err(because("WEBHOOK_ATTEMPTS must be a whole number"@, int_error(e))),
            Ok(n) => if n == 0 {
                Err(plain("WEBHOOK_ATTEMPTS must be at least 1"@))
            } else {
                Ok(n)
            },
        },
    }
}

fn read_webhook_attempts(vars: &Vars) -> (r: Result<u32, ConfigError>)
    ensures
        match r {
            Ok(n) => webhook_attempts(vars@) == Ok::<nat, Fault>(n as nat),
            Err(e) => webhook_attempts(vars@) == Err::<nat, Fault>(e@),
        },
{
    match vars.get("WEBHOOK_ATTEMPTS") {
        None => Ok(3),
        Some(raw) => match parse_whole(raw.as_str(), u32::MAX as u64) {
            Err(e) => Err(
                ConfigError::because("WEBHOOK_ATTEMPTS must be a whole number", int_error_text(e)),
            ),
            Ok(n) => if n == 0 {
                Err(ConfigError::plain("WEBHOOK_ATTEMPTS must be at least 1"))
            } else {
                Ok(n as u32)
            },
        },
    }
}

/// The highest reconnect delay that can be configured, in seconds. An
/// accidental huge ceiling would leave the camera path down for hours after a
/// burst of failures.
pub const RECONNECT_CEILING: u64 = 3600;

#[derive(Clone)]
pub struct Config {
    pub hik_url: Url,
    pub hik_user: String,
    pub hik_pass: String,
    pub webhook_url: Url,
    /// The value of the `X-API-Key` header.
    pub api_key: String,
    /// URL probed periodically to verify the Protect path (DNS, routing, TLS).
    pub probe_url: Url,
    /// The address and port that the health server listens on.
    pub health_bind: String,
    pub fire_matcher: FireMatcher,
    pub stream_idle: Duration,
    pub cooldown: Duration,
    pub realert: Option<Duration>,
    pub active_ttl: Duration,
    pub webhook_timeout: Duration,
    pub webhook_attempts: u32,
    pub probe_interval: Option<Duration>,
    pub reconnect_initial: Duration,
    pub reconnect_max: Duration,
}

/// What a `Config` holds; spans of time in nanoseconds.
pub struct ConfigView {
    pub hik_url: UrlView,
    pub hik_user: Seq<char>,
    pub hik_pass: Seq<char>,
    pub webhook_url: UrlView,
    pub api_key: Seq<char>,
    pub probe_url: UrlView,
    pub health_bind: Seq<char>,
    pub fire_types: Seq<Seq<char>>,
    pub stream_idle: int,
    pub cooldown: int,
    pub realert: Option<int>,
    pub active_ttl: int,
    pub webhook_timeout: int,
    pub webhook_attempts: nat,
    pub probe_interval: Option<int>,
    pub reconnect_initial: int,
    pub reconnect_max: int,
}

pub open spec fn optional_nanos(d: Option<Duration>) -> Option<int> {
    match d {
        Some(d) => Some(d.nanos as int),
        None => None,
    }
}

impl View for Config {
    type V = ConfigView;

    open spec fn view(&self) -> ConfigView {
        ConfigView {
            hik_url: self.hik_url@,
            hik_user: self.hik_user@,
            hik_pass: self.hik_pass@,
            webhook_url: self.webhook_url@,
            api_key: self.api_key@,
            probe_url: self.probe_url@,
            health_bind: self.health_bind@,
            fire_types: self.fire_matcher@,
            stream_idle: self.stream_idle.nanos as int,
            cooldown: self.cooldown.nanos as int,
            realert: optional_nanos(self.realert),
            active_ttl: self.active_ttl.nanos as int,
            webhook_timeout: self.webhook_timeout.nanos as int,
            webhook_attempts: self.webhook_attempts as nat,
            probe_interval: optional_nanos(self.probe_interval),
            reconnect_initial: self.reconnect_initial.nanos as int,
            reconnect_max: self.reconnect_max.nanos as int,
        }
    }
}

/// Zero turns an optional behaviour off.
pub open spec fn unless_zero(nanos: int) -> Option<int> {
    if nanos == 0 {
        None
    } else {
        Some(nanos)
    }
}

/// The first thing that is wrong with the URLs, in the order in which they are
/// read.
pub open spec fn url_fault(vars: VarMap) -> Option<Fault> {
    if camera_url(vars) is Err {
        Some(camera_url(vars)->Err_0)
    } else if webhook_url(vars) is Err {
        Some(webhook_url(vars)->Err_0)
    } else if !is_private(webhook_url(vars)->Ok_0) {
        Some(not_private("Protect webhook URL"@))
    } else if probe_url(vars) is Err {
        Some(probe_url(vars)->Err_0)
    } else if !is_private(probe_url(vars)->Ok_0) {
        Some(not_private("Protect probe URL"@))
    } else {
        None
    }
}

/// The first thing that is wrong with the other settings, in the order in
/// which they are read. `bind` is what became of the health server's address.
pub open spec fn setting_fault(vars: VarMap, bind: Result<Seq<char>, Seq<char>>) -> Option<Fault> {
    let initial = seconds(vars, "RECONNECT_INITIAL_SECONDS"@, 1);
    let max = seconds(vars, "RECONNECT_MAX_SECONDS"@, 30);
    if api_key(vars) is Err {
        Some(api_key(vars)->Err_0)
    } else if fire_types(vars) is Err {
        Some(fire_types(vars)->Err_0)
    } else if webhook_attempts(vars) is Err {
        Some(webhook_attempts(vars)->Err_0)
    } else if initial is Err {
        Some(initial->Err_0)
    } else if max is Err {
        Some(max->Err_0)
    } else if initial->Ok_0 == 0 || max->Ok_0 < initial->Ok_0 {
        Some(plain("RECONNECT_MAX_SECONDS must be >= RECONNECT_INITIAL_SECONDS >= 1"@))
    } else if max->Ok_0 > Duration::of_secs(RECONNECT_CEILING as nat) {
        Some(plain("RECONNECT_MAX_SECONDS must be at most 3600"@))
    } else if required(vars, "HIKVISION_USER"@) is Err {
        Some(required(vars, "HIKVISION_USER"@)->Err_0)
    } else if required(vars, "HIKVISION_PASS"@) is Err {
        Some(required(vars, "HIKVISION_PASS"@)->Err_0)
    } else if bind is Err {
        Some(because("HEALTH_BIND must be an address:port pair"@, bind->Err_0))
    } else if nonzero_seconds(vars, "STREAM_IDLE_TIMEOUT_SECONDS"@, 90) is Err {
        Some(nonzero_seconds(vars, "STREAM_IDLE_TIMEOUT_SECONDS"@, 90)->Err_0)
    } else if nonzero_seconds(vars, "FIRE_COOLDOWN_SECONDS"@, 60) is Err {
        Some(nonzero_seconds(vars, "FIRE_COOLDOWN_SECONDS"@, 60)->Err_0)
    } else if seconds(vars, "FIRE_REALERT_SECONDS"@, 60) is Err {
        Some(seconds(vars, "FIRE_REALERT_SECONDS"@, 60)->Err_0)
    } else if nonzero_seconds(vars, "FIRE_ACTIVE_TTL_SECONDS"@, 300) is Err {
        Some(nonzero_seconds(vars, "FIRE_ACTIVE_TTL_SECONDS"@, 300)->Err_0)
    } else if nonzero_seconds(vars, "WEBHOOK_TIMEOUT_SECONDS"@, 5) is Err {
        Some(nonzero_seconds(vars, "WEBHOOK_TIMEOUT_SECONDS"@, 5)->Err_0)
    } else if seconds(vars, "PROTECT_PROBE_SECONDS"@, 60) is Err {
        Some(seconds(vars, "PROTECT_PROBE_SECONDS"@, 60)->Err_0)
    } else {
        None
    }
}

/// The first thing that is wrong with the variables.
pub open spec fn first_fault(vars: VarMap, bind: Result<Seq<char>, Seq<char>>) -> Option<Fault> {
    match url_fault(vars) {
        Some(f) => Some(f),
        None => setting_fault(vars, bind),
    }
}

/// The configuration that the variables and the three URLs give, where nothing
/// is wrong with them.
pub open spec fn settings(
    vars: VarMap,
    camera: UrlView,
    webhook: UrlView,
    probe: UrlView,
    bind: Seq<char>,
) -> ConfigView {
    ConfigView {
        hik_url: camera,
        hik_user: required(vars, "HIKVISION_USER"@)->Ok_0,
        hik_pass: required(vars, "HIKVISION_PASS"@)->Ok_0,
        webhook_url: webhook,
        api_key: api_key(vars)->Ok_0,
        probe_url: probe,
        health_bind: bind,
        fire_types: fire_types(vars)->Ok_0,
        stream_idle: seconds(vars, "STREAM_IDLE_TIMEOUT_SECONDS"@, 90)->Ok_0,
        cooldown: seconds(vars, "FIRE_COOLDOWN_SECONDS"@, 60)->Ok_0,
        realert: unless_zero(seconds(vars, "FIRE_REALERT_SECONDS"@, 60)->Ok_0),
        active_ttl: seconds(vars, "FIRE_ACTIVE_TTL_SECONDS"@, 300)->Ok_0,
        webhook_timeout: seconds(vars, "WEBHOOK_TIMEOUT_SECONDS"@, 5)->Ok_0,
        webhook_attempts: webhook_attempts(vars)->Ok_0,
        probe_interval: unless_zero(seconds(vars, "PROTECT_PROBE_SECONDS"@, 60)->Ok_0),
        reconnect_initial: seconds(vars, "RECONNECT_INITIAL_SECONDS"@, 1)->Ok_0,
        reconnect_max: seconds(vars, "RECONNECT_MAX_SECONDS"@, 30)->Ok_0,
    }
}

/// The configuration that the variables give, where nothing is wrong with
/// them.
pub open spec fn loaded(vars: VarMap, bind: Seq<char>) -> ConfigView {
    settings(
        vars,
        camera_url(vars)->Ok_0,
        webhook_url(vars)->Ok_0,
        probe_url(vars)->Ok_0,
        bind,
    )
}

/// The variables that an error may name.
pub open spec fn is_named(name: Seq<char>) -> bool {
    ||| name == "HIKVISION_HOST"@
    ||| name == "PROTECT_BASE_URL"@
    ||| name == "PROTECT_WEBHOOK_ID"@
    ||| name == "PROTECT_API_KEY"@
    ||| name == "HIKVISION_USER"@
    ||| name == "HIKVISION_PASS"@
    ||| name == "RECONNECT_INITIAL_SECONDS"@
    ||| name == "RECONNECT_MAX_SECONDS"@
    ||| name == "STREAM_IDLE_TIMEOUT_SECONDS"@
    ||| name == "FIRE_COOLDOWN_SECONDS"@
    ||| name == "FIRE_REALERT_SECONDS"@
    ||| name == "FIRE_ACTIVE_TTL_SECONDS"@
    ||| name == "WEBHOOK_TIMEOUT_SECONDS"@
    ||| name == "PROTECT_PROBE_SECONDS"@
}

/// What an error may say is wrong. No value of a variable is in it.
pub open spec fn is_fixed_context(context: Seq<char>) -> bool {
    ||| context == "HIKVISION_SCHEME must be http or https"@
    ||| context
        == "HIKVISION_HOST must be a bare host or host:port (no path, userinfo, or query)"@
    ||| context == "HIKVISION_HOST is not a valid host"@
    ||| context == "PROTECT_WEBHOOK_URL is not a valid URL"@
    ||| context == "PROTECT_BASE_URL is not a valid URL"@
    ||| context
        == "PROTECT_WEBHOOK_ID may contain only letters, digits, '-' and '_' (set PROTECT_WEBHOOK_URL for a full custom URL)"@
    ||| context == "could not build webhook URL from PROTECT_BASE_URL"@
    ||| context == not_private("Protect webhook URL"@).context
    ||| context == not_private("Protect probe URL"@).context
    ||| context == "PROTECT_API_KEY contains characters not permitted in an HTTP header"@
    ||| context == "FIRE_EVENT_TYPES must list at least one event type"@
    ||| context == "WEBHOOK_ATTEMPTS must be a whole number"@
    ||| context == "WEBHOOK_ATTEMPTS must be at least 1"@
    ||| context == "RECONNECT_MAX_SECONDS must be >= RECONNECT_INITIAL_SECONDS >= 1"@
    ||| context == "RECONNECT_MAX_SECONDS must be at most 3600"@
    ||| exists|name: Seq<char>| #[trigger]
        is_named(name) && (context == name + " is required and must not be empty"@ || context
            == name + " must be a whole number of seconds"@ || context == name
            + " must be greater than zero"@)
}

/// What a parser may have said of it.
pub open spec fn is_fixed_cause(cause: Seq<char>) -> bool {
    ||| is_url_error(cause)
    ||| cause == int_error(IntError::Empty)
    ||| cause == int_error(IntError::InvalidDigit)
    ||| cause == int_error(IntError::TooLarge)
    ||| cause == "failed to parse header value"@
}

/// The error is one of a fixed set, whatever the variables hold: it echoes none
/// of their values.
pub open spec fn is_fixed(f: Fault) -> bool {
    &&& is_fixed_context(f.context)
    &&& f.cause matches Some(cause) ==> is_fixed_cause(cause)
}

/// The error is one of a fixed set, or passes on what the caller said of the
/// health server's address.
pub open spec fn is_fixed_or_bind(f: Fault, bind: Result<Seq<char>, Seq<char>>) -> bool {
    ||| is_fixed(f)
    ||| bind matches Err(e) && f == because("HEALTH_BIND must be an address:port pair"@, e)
}

proof fn lemma_required_is_fixed(vars: VarMap, name: Seq<char>)
    requires
        is_named(name),
    ensures
        required(vars, name) matches Err(f) ==> is_fixed(f),
{
}

proof fn lemma_seconds_are_fixed(vars: VarMap, name: Seq<char>, default: nat)
    requires
        is_named(name),
    ensures
        seconds(vars, name, default) matches Err(f) ==> is_fixed(f),
        nonzero_seconds(vars, name, default) matches Err(f) ==> is_fixed(f),
{
}

/// Every error of the settings is one of a fixed set.
pub proof fn lemma_setting_faults_are_fixed(vars: VarMap, bind: Result<Seq<char>, Seq<char>>)
    ensures
        setting_fault(vars, bind) matches Some(f) ==> is_fixed_or_bind(f, bind),
{
    lemma_required_is_fixed(vars, "PROTECT_API_KEY"@);
    lemma_required_is_fixed(vars, "HIKVISION_USER"@);
    lemma_required_is_fixed(vars, "HIKVISION_PASS"@);
    lemma_seconds_are_fixed(vars, "RECONNECT_INITIAL_SECONDS"@, 1);
    lemma_seconds_are_fixed(vars, "RECONNECT_MAX_SECONDS"@, 30);
    lemma_seconds_are_fixed(vars, "STREAM_IDLE_TIMEOUT_SECONDS"@, 90);
    lemma_seconds_are_fixed(vars, "FIRE_COOLDOWN_SECONDS"@, 60);
    lemma_seconds_are_fixed(vars, "FIRE_REALERT_SECONDS"@, 60);
    lemma_seconds_are_fixed(vars, "FIRE_ACTIVE_TTL_SECONDS"@, 300);
    lemma_seconds_are_fixed(vars, "WEBHOOK_TIMEOUT_SECONDS"@, 5);
    lemma_seconds_are_fixed(vars, "PROTECT_PROBE_SECONDS"@, 60);
}

/// What an address parser made of a text.
pub open spec fn outcome(r: Result<String, String>) -> Result<Seq<char>, Seq<char>> {
    match r {
        Ok(s) => Ok(s@),
        Err(e) => Err(e@),
    }
}

impl Config {
    /// The address and port that the health server is to listen on. The
    /// address grammar belongs to the caller, who hands the outcome to
    /// `from_map`.
    pub fn health_bind_text(vars: &Vars) -> (text: String)
        ensures
            text@ == var_or(vars@, "HEALTH_BIND"@, "0.0.0.0:8080"@),
            vars@.contains_key("HEALTH_BIND"@) ==> text@ == trimmed(vars@["HEALTH_BIND"@]),
            !vars@.contains_key("HEALTH_BIND"@) ==> text@ == "0.0.0.0:8080"@,
    {
        match vars.get("HEALTH_BIND") {
            Some(text) => text,
            None => "0.0.0.0:8080".to_owned(),
        }
    }

    /// Load from an explicit map. `bind` is what parsing `health_bind_text` as
    /// an address with a port gave: the address as text, or the error's text.
    pub fn from_map(vars: &Vars, bind: Result<String, String>) -> (r: Result<Self, ConfigError>)
        ensures
            match r {
                Ok(cfg) => first_fault(vars@, outcome(bind)) is None && bind is Ok && cfg@
                    == loaded(vars@, bind->Ok_0@),
                Err(e) => first_fault(vars@, outcome(bind)) == Some(e@),
            },
            r is Ok ==> r->Ok_0.showable(),
            // an error echoes no value
            r matches Err(e) ==> is_fixed_or_bind(e@, outcome(bind)),
            // a webhook built from an ID keeps the base's server and ends in the ID
            r is Ok && filled(vars@, "PROTECT_WEBHOOK_URL"@) is None ==> built_on_base(
                vars@,
                r->Ok_0@.webhook_url,
            ),
            // without a base URL the probe goes to the root of the webhook's server
            r is Ok && filled(vars@, "PROTECT_BASE_URL"@) is None ==> rebased(
                r->Ok_0@.webhook_url,
                "/"@,
                r->Ok_0@.probe_url,
            ),
            // each setting comes from its own variable
            r matches Ok(cfg) ==> {
                &&& camera_url(vars@) == Ok::<UrlView, Fault>(cfg.hik_url@)
                &&& webhook_url(vars@) == Ok::<UrlView, Fault>(cfg.webhook_url@)
                &&& probe_url(vars@) == Ok::<UrlView, Fault>(cfg.probe_url@)
                &&& vars@.contains_key("STREAM_IDLE_TIMEOUT_SECONDS"@) ==> whole_number(
                    trimmed(vars@["STREAM_IDLE_TIMEOUT_SECONDS"@]),
                    18_446_744_073_709_551_615,
                ) == Ok::<nat, IntError>((cfg.stream_idle.nanos / 1_000_000_000) as nat) && cfg.stream_idle.nanos
                    % 1_000_000_000 == 0
                &&& !vars@.contains_key("STREAM_IDLE_TIMEOUT_SECONDS"@) ==> cfg.stream_idle.nanos == 90_000_000_000
                &&& vars@.contains_key("FIRE_COOLDOWN_SECONDS"@) ==> whole_number(
                    trimmed(vars@["FIRE_COOLDOWN_SECONDS"@]),
                    18_446_744_073_709_551_615,
                ) == Ok::<nat, IntError>((cfg.cooldown.nanos / 1_000_000_000) as nat) && cfg.cooldown.nanos
                    % 1_000_000_000 == 0
                &&& !vars@.contains_key("FIRE_COOLDOWN_SECONDS"@) ==> cfg.cooldown.nanos == 60_000_000_000
                &&& vars@.contains_key("FIRE_ACTIVE_TTL_SECONDS"@) ==> whole_number(
                    trimmed(vars@["FIRE_ACTIVE_TTL_SECONDS"@]),
                    18_446_744_073_709_551_615,
                ) == Ok::<nat, IntError>((cfg.active_ttl.nanos / 1_000_000_000) as nat) && cfg.active_ttl.nanos
                    % 1_000_000_000 == 0
                &&& !vars@.contains_key("FIRE_ACTIVE_TTL_SECONDS"@) ==> cfg.active_ttl.nanos == 300_000_000_000
                &&& vars@.contains_key("WEBHOOK_TIMEOUT_SECONDS"@) ==> whole_number(
                    trimmed(vars@["WEBHOOK_TIMEOUT_SECONDS"@]),
                    18_446_744_073_709_551_615,
                ) == Ok::<nat, IntError>((cfg.webhook_timeout.nanos / 1_000_000_000) as nat) && cfg.webhook_timeout.nanos
                    % 1_000_000_000 == 0
                &&& !vars@.contains_key("WEBHOOK_TIMEOUT_SECONDS"@) ==> cfg.webhook_timeout.nanos == 5_000_000_000
                &&& vars@.contains_key("RECONNECT_INITIAL_SECONDS"@) ==> whole_number(
                    trimmed(vars@["RECONNECT_INITIAL_SECONDS"@]),
                    18_446_744_073_709_551_615,
                ) == Ok::<nat, IntError>((cfg.reconnect_initial.nanos / 1_000_000_000) as nat) && cfg.reconnect_initial.nanos
                    % 1_000_000_000 == 0
                &&& !vars@.contains_key("RECONNECT_INITIAL_SECONDS"@) ==> cfg.reconnect_initial.nanos == 1_000_000_000
                &&& vars@.contains_key("RECONNECT_MAX_SECONDS"@) ==> whole_number(
                    trimmed(vars@["RECONNECT_MAX_SECONDS"@]),
                    18_446_744_073_709_551_615,
                ) == Ok::<nat, IntError>((cfg.reconnect_max.nanos / 1_000_000_000) as nat) && cfg.reconnect_max.nanos
                    % 1_000_000_000 == 0
                &&& !vars@.contains_key("RECONNECT_MAX_SECONDS"@) ==> cfg.reconnect_max.nanos == 30_000_000_000
                &&& vars@.contains_key("FIRE_REALERT_SECONDS"@) ==> match cfg.realert {
                    Some(d) => whole_number(trimmed(vars@["FIRE_REALERT_SECONDS"@]), 18_446_744_073_709_551_615) == Ok::<
                        nat,
                        IntError,
                    >((d.nanos / 1_000_000_000) as nat) && d.nanos % 1_000_000_000 == 0 && d.nanos > 0,
                    None => whole_number(trimmed(vars@["FIRE_REALERT_SECONDS"@]), 18_446_744_073_709_551_615) == Ok::<
                        nat,
                        IntError,
                    >(0),
                }
                &&& !vars@.contains_key("FIRE_REALERT_SECONDS"@) ==> (cfg.realert matches Some(d) && d.nanos
                    == 60_000_000_000)
                &&& vars@.contains_key("PROTECT_PROBE_SECONDS"@) ==> match cfg.probe_interval {
                    Some(d) => whole_number(trimmed(vars@["PROTECT_PROBE_SECONDS"@]), 18_446_744_073_709_551_615) == Ok::<
                        nat,
                        IntError,
                    >((d.nanos / 1_000_000_000) as nat) && d.nanos % 1_000_000_000 == 0 && d.nanos > 0,
                    None => whole_number(trimmed(vars@["PROTECT_PROBE_SECONDS"@]), 18_446_744_073_709_551_615) == Ok::<
                        nat,
                        IntError,
                    >(0),
                }
                &&& !vars@.contains_key("PROTECT_PROBE_SECONDS"@) ==> (cfg.probe_interval matches Some(d) && d.nanos
                    == 60_000_000_000)
                &&& vars@.contains_key("WEBHOOK_ATTEMPTS"@) ==> whole_number(
                    trimmed(vars@["WEBHOOK_ATTEMPTS"@]),
                    4_294_967_295,
                ) == Ok::<nat, IntError>(cfg.webhook_attempts as nat)
                &&& !vars@.contains_key("WEBHOOK_ATTEMPTS"@) ==> cfg.webhook_attempts == 3
                &&& cfg.webhook_attempts >= 1
                &&& vars@.contains_key("HIKVISION_USER"@) && cfg.hik_user@ == trimmed(
                    vars@["HIKVISION_USER"@],
                )
                &&& vars@.contains_key("HIKVISION_PASS"@) && cfg.hik_pass@ == trimmed(
                    vars@["HIKVISION_PASS"@],
                )
                &&& vars@.contains_key("PROTECT_API_KEY"@) && cfg.api_key@ == trimmed(
                    vars@["PROTECT_API_KEY"@],
                )
                &&& bind matches Ok(addr) && cfg.health_bind@ == addr@
                &&& vars@.contains_key("FIRE_EVENT_TYPES"@) && trimmed(vars@["FIRE_EVENT_TYPES"@]).len() > 0
                    ==> cfg.fire_matcher@ == listed(trimmed(vars@["FIRE_EVENT_TYPES"@]))
                &&& !(vars@.contains_key("FIRE_EVENT_TYPES"@) && trimmed(
                    vars@["FIRE_EVENT_TYPES"@],
                ).len() > 0) ==> cfg.fire_matcher@ == seq![
                    "firedetection"@,
                    "fire_detection"@,
                    "firealarm"@,
                ]
            },
    {
        let hik_url = match read_camera_url(vars) {
            Ok(url) => url,
            Err(e) => return Err(e),
        };
        let webhook_url = match read_webhook_url(vars) {
            Ok(url) => url,
            Err(e) => return Err(e),
        };
        if let Err(e) = require_https_or_loopback(&webhook_url, "Protect webhook URL") {
            return Err(e);
        }
        let probe_url = match read_probe_url(vars) {
            Ok(url) => url,
            Err(e) => return Err(e),
        };
        if let Err(e) = require_https_or_loopback(&probe_url, "Protect probe URL") {
            return Err(e);
        }
        Self::from_urls(vars, hik_url, webhook_url, probe_url, bind)
    }

    /// Load everything but the URLs, which the caller has read and checked.
    pub fn from_urls(
        vars: &Vars,
        hik_url: Url,
        webhook_url: Url,
        probe_url: Url,
        bind: Result<String, String>,
    ) -> (r: Result<Self, ConfigError>)
        ensures
            match r {
                Ok(cfg) => setting_fault(vars@, outcome(bind)) is None && bind is Ok && cfg@
                    == settings(vars@, hik_url@, webhook_url@, probe_url@, bind->Ok_0@),
                Err(e) => setting_fault(vars@, outcome(bind)) == Some(e@),
            },
            r is Ok ==> r->Ok_0.showable(),
            // an error echoes no value
            r matches Err(e) ==> is_fixed_or_bind(e@, outcome(bind)),
            // each setting comes from its own variable
            r matches Ok(cfg) ==> {
                &&& cfg.hik_url == hik_url
                &&& cfg.webhook_url == webhook_url
                &&& cfg.probe_url == probe_url
                &&& vars@.contains_key("STREAM_IDLE_TIMEOUT_SECONDS"@) ==> whole_number(
                    trimmed(vars@["STREAM_IDLE_TIMEOUT_SECONDS"@]),
                    18_446_744_073_709_551_615,
                ) == Ok::<nat, IntError>((cfg.stream_idle.nanos / 1_000_000_000) as nat) && cfg.stream_idle.nanos
                    % 1_000_000_000 == 0
                &&& !vars@.contains_key("STREAM_IDLE_TIMEOUT_SECONDS"@) ==> cfg.stream_idle.nanos == 90_000_000_000
                &&& vars@.contains_key("FIRE_COOLDOWN_SECONDS"@) ==> whole_number(
                    trimmed(vars@["FIRE_COOLDOWN_SECONDS"@]),
                    18_446_744_073_709_551_615,
                ) == Ok::<nat, IntError>((cfg.cooldown.nanos / 1_000_000_000) as nat) && cfg.cooldown.nanos
                    % 1_000_000_000 == 0
                &&& !vars@.contains_key("FIRE_COOLDOWN_SECONDS"@) ==> cfg.cooldown.nanos == 60_000_000_000
                &&& vars@.contains_key("FIRE_ACTIVE_TTL_SECONDS"@) ==> whole_number(
                    trimmed(vars@["FIRE_ACTIVE_TTL_SECONDS"@]),
                    18_446_744_073_709_551_615,
                ) == Ok::<nat, IntError>((cfg.active_ttl.nanos / 1_000_000_000) as nat) && cfg.active_ttl.nanos
                    % 1_000_000_000 == 0
                &&& !vars@.contains_key("FIRE_ACTIVE_TTL_SECONDS"@) ==> cfg.active_ttl.nanos == 300_000_000_000
                &&& vars@.contains_key("WEBHOOK_TIMEOUT_SECONDS"@) ==> whole_number(
                    trimmed(vars@["WEBHOOK_TIMEOUT_SECONDS"@]),
                    18_446_744_073_709_551_615,
                ) == Ok::<nat, IntError>((cfg.webhook_timeout.nanos / 1_000_000_000) as nat) && cfg.webhook_timeout.nanos
                    % 1_000_000_000 == 0
                &&& !vars@.contains_key("WEBHOOK_TIMEOUT_SECONDS"@) ==> cfg.webhook_timeout.nanos == 5_000_000_000
                &&& vars@.contains_key("RECONNECT_INITIAL_SECONDS"@) ==> whole_number(
                    trimmed(vars@["RECONNECT_INITIAL_SECONDS"@]),
                    18_446_744_073_709_551_615,
                ) == Ok::<nat, IntError>((cfg.reconnect_initial.nanos / 1_000_000_000) as nat) && cfg.reconnect_initial.nanos
                    % 1_000_000_000 == 0
                &&& !vars@.contains_key("RECONNECT_INITIAL_SECONDS"@) ==> cfg.reconnect_initial.nanos == 1_000_000_000
                &&& vars@.contains_key("RECONNECT_MAX_SECONDS"@) ==> whole_number(
                    trimmed(vars@["RECONNECT_MAX_SECONDS"@]),
                    18_446_744_073_709_551_615,
                ) == Ok::<nat, IntError>((cfg.reconnect_max.nanos / 1_000_000_000) as nat) && cfg.reconnect_max.nanos
                    % 1_000_000_000 == 0
                &&& !vars@.contains_key("RECONNECT_MAX_SECONDS"@) ==> cfg.reconnect_max.nanos == 30_000_000_000
                &&& vars@.contains_key("FIRE_REALERT_SECONDS"@) ==> match cfg.realert {
                    Some(d) => whole_number(trimmed(vars@["FIRE_REALERT_SECONDS"@]), 18_446_744_073_709_551_615) == Ok::<
                        nat,
                        IntError,
                    >((d.nanos / 1_000_000_000) as nat) && d.nanos % 1_000_000_000 == 0 && d.nanos > 0,
                    None => whole_number(trimmed(vars@["FIRE_REALERT_SECONDS"@]), 18_446_744_073_709_551_615) == Ok::<
                        nat,
                        IntError,
                    >(0),
                }
                &&& !vars@.contains_key("FIRE_REALERT_SECONDS"@) ==> (cfg.realert matches Some(d) && d.nanos
                    == 60_000_000_000)
                &&& vars@.contains_key("PROTECT_PROBE_SECONDS"@) ==> match cfg.probe_interval {
                    Some(d) => whole_number(trimmed(vars@["PROTECT_PROBE_SECONDS"@]), 18_446_744_073_709_551_615) == Ok::<
                        nat,
                        IntError,
                    >((d.nanos / 1_000_000_000) as nat) && d.nanos % 1_000_000_000 == 0 && d.nanos > 0,
                    None => whole_number(trimmed(vars@["PROTECT_PROBE_SECONDS"@]), 18_446_744_073_709_551_615) == Ok::<
                        nat,
                        IntError,
                    >(0),
                }
                &&& !vars@.contains_key("PROTECT_PROBE_SECONDS"@) ==> (cfg.probe_interval matches Some(d) && d.nanos
                    == 60_000_000_000)
                &&& vars@.contains_key("WEBHOOK_ATTEMPTS"@) ==> whole_number(
                    trimmed(vars@["WEBHOOK_ATTEMPTS"@]),
                    4_294_967_295,
                ) == Ok::<nat, IntError>(cfg.webhook_attempts as nat)
                &&& !vars@.contains_key("WEBHOOK_ATTEMPTS"@) ==> cfg.webhook_attempts == 3
                &&& cfg.webhook_attempts >= 1
                &&& vars@.contains_key("HIKVISION_USER"@) && cfg.hik_user@ == trimmed(
                    vars@["HIKVISION_USER"@],
                )
                &&& vars@.contains_key("HIKVISION_PASS"@) && cfg.hik_pass@ == trimmed(
                    vars@["HIKVISION_PASS"@],
                )
                &&& vars@.contains_key("PROTECT_API_KEY"@) && cfg.api_key@ == trimmed(
                    vars@["PROTECT_API_KEY"@],
                )
                &&& bind matches Ok(addr) && cfg.health_bind@ == addr@
                &&& vars@.contains_key("FIRE_EVENT_TYPES"@) && trimmed(vars@["FIRE_EVENT_TYPES"@]).len() > 0
                    ==> cfg.fire_matcher@ == listed(trimmed(vars@["FIRE_EVENT_TYPES"@]))
                &&& !(vars@.contains_key("FIRE_EVENT_TYPES"@) && trimmed(
                    vars@["FIRE_EVENT_TYPES"@],
                ).len() > 0) ==> cfg.fire_matcher@ == seq![
                    "firedetection"@,
                    "fire_detection"@,
                    "firealarm"@,
                ]
            },
    {
        proof {
            lemma_setting_faults_are_fixed(vars@, outcome(bind));
        }
        let api_key = match read_api_key(vars) {
            Ok(key) => key,
            Err(e) => return Err(e),
        };
        let fire_matcher = match read_fire_matcher(vars) {
            Ok(matcher) => matcher,
            Err(e) => return Err(e),
        };
        let webhook_attempts: u32 = match read_webhook_attempts(vars) {
            Ok(n) => n,
            Err(e) => return Err(e),
        };
        let reconnect_initial = match vars.get_seconds("RECONNECT_INITIAL_SECONDS", 1) {
            Ok(d) => d,
            Err(e) => return Err(e),
        };
        let reconnect_max = match vars.get_seconds("RECONNECT_MAX_SECONDS", 30) {
            Ok(d) => d,
            Err(e) => return Err(e),
        };
        if reconnect_initial.is_zero() || reconnect_max.nanos < reconnect_initial.nanos {
            return Err(
                ConfigError::plain(
                    "RECONNECT_MAX_SECONDS must be >= RECONNECT_INITIAL_SECONDS >= 1",
                ),
            );
        }
        if reconnect_max.nanos > Duration::from_secs(RECONNECT_CEILING).nanos {
            return Err(ConfigError::plain("RECONNECT_MAX_SECONDS must be at most 3600"));
        }
        let hik_user = match vars.get_required("HIKVISION_USER") {
            Ok(user) => user,
            Err(e) => return Err(e),
        };
        let hik_pass = match vars.get_required("HIKVISION_PASS") {
            Ok(pass) => pass,
            Err(e) => return Err(e),
        };
        let health_bind = match bind {
            Ok(addr) => addr,
            Err(e) => return Err(
                ConfigError::because("HEALTH_BIND must be an address:port pair", e),
            ),
        };
        // Zero would make timeouts fire instantly and degenerate the state
        // machine (TTL=0 turns every heartbeat into an "expired" edge;
        // cooldown=0 removes all rate limiting). Fail fast instead.
        let stream_idle = match vars.get_nonzero_seconds("STREAM_IDLE_TIMEOUT_SECONDS", 90) {
            Ok(d) => d,
            Err(e) => return Err(e),
        };
        let cooldown = match vars.get_nonzero_seconds("FIRE_COOLDOWN_SECONDS", 60) {
            Ok(d) => d,
            Err(e) => return Err(e),
        };
        let realert = match vars.get_optional_seconds("FIRE_REALERT_SECONDS", 60) {
            Ok(d) => d,
            Err(e) => return Err(e),
        };
        let active_ttl = match vars.get_nonzero_seconds("FIRE_ACTIVE_TTL_SECONDS", 300) {
            Ok(d) => d,
            Err(e) => return Err(e),
        };
        let webhook_timeout = match vars.get_nonzero_seconds("WEBHOOK_TIMEOUT_SECONDS", 5) {
            Ok(d) => d,
            Err(e) => return Err(e),
        };
        let probe_interval = match vars.get_optional_seconds("PROTECT_PROBE_SECONDS", 60) {
            Ok(d) => d,
            Err(e) => return Err(e),
        };
        Ok(
            Config {
                hik_url,
                hik_user,
                hik_pass,
                webhook_url,
                api_key,
                probe_url,
                health_bind,
                fire_matcher,
                stream_idle,
                cooldown,
                realert,
                active_ttl,
                webhook_timeout,
                webhook_attempts,
                probe_interval,
                reconnect_initial,
                reconnect_max,
            },
        )
    }
}

/// What `str`'s `Debug` prints for a text.
pub uninterp spec fn str_debug(text: Seq<char>) -> Seq<char>;

/// `str`'s `Debug`: the text in double quotes, with escapes. Which characters
/// are escaped, and how, is not stated.
#[verifier::external_body]
fn quoted(text: &str) -> (out: String)
    ensures
        out@ == str_debug(text@),
{
    format!("{:?}", text)
}

/// What the `Debug` of `std::time::Duration` prints for a span.
pub uninterp spec fn duration_debug(secs: u64, subsec_nanos: u32) -> Seq<char>;

/// The `Debug` of `std::time::Duration`: a number and a unit. Which unit it
/// picks is not stated. `Duration::new` can panic on a whole second or more of
/// nanoseconds.
#[verifier::external_body]
fn show_duration(secs: u64, subsec_nanos: u32) -> (out: String)
    requires
        subsec_nanos < NANOS_PER_SEC,
    ensures
        out@ == duration_debug(secs, subsec_nanos),
{
    format!("{:?}", std::time::Duration::new(secs, subsec_nanos))
}

/// The span has a number of seconds that fits.
pub open spec fn is_showable(nanos: int) -> bool {
    0 <= nanos && nanos / NANOS_PER_SEC as int <= u64::MAX
}

pub open spec fn span_debug(nanos: int) -> Seq<char> {
    duration_debug(
        (nanos / NANOS_PER_SEC as int) as u64,
        (nanos % NANOS_PER_SEC as int) as u32,
    )
}

fn span_text(d: Duration) -> (out: String)
    requires
        is_showable(d.nanos as int),
    ensures
        out@ == span_debug(d.nanos as int),
{
    show_duration((d.nanos / NANOS_PER_SEC) as u64, (d.nanos % NANOS_PER_SEC) as u32)
}

pub open spec fn optional_span_debug(nanos: Option<int>) -> Seq<char> {
    match nanos {
        None => "None"@,
        Some(nanos) => "Some("@ + span_debug(nanos) + ")"@,
    }
}

fn optional_span_text(d: Option<Duration>) -> (out: String)
    requires
        d matches Some(d) ==> is_showable(d.nanos as int),
    ensures
        out@ == optional_span_debug(optional_nanos(d)),
{
    match d {
        None => "None".to_owned(),
        Some(d) => {
            let mut out = "Some(".to_owned();
            out.append(span_text(d).as_str());
            out.append(")");
            out
        },
    }
}

/// A list of texts as `Debug` prints it, up to its closing bracket.
pub open spec fn list_debug(types: Seq<Seq<char>>) -> Seq<char>
    decreases types.len(),
{
    if types.len() == 0 {
        "["@
    } else {
        list_debug(types.drop_last()) + (if types.len() == 1 {
            ""@
        } else {
            ", "@
        }) + str_debug(types.last())
    }
}

fn list_text(types: &Vec<String>) -> (out: String)
    ensures
        out@ == list_debug(texts(types@)),
{
    let mut out = "[".to_owned();
    let mut i: usize = 0;
    assert(texts(types@).take(0) =~= Seq::empty());
    while i < types.len()
        invariant
            i <= types@.len(),
            out@ == list_debug(texts(types@).take(i as int)),
        decreases types@.len() - i,
    {
        proof {
            assert(texts(types@).take(i + 1).drop_last() =~= texts(types@).take(i as int));
        }
        out.append(if i == 0 {
            ""
        } else {
            ", "
        });
        out.append(quoted(types[i].as_str()).as_str());
        i += 1;
    }
    assert(texts(types@).take(i as int) =~= texts(types@));
    out
}

/// A configuration as text, with the secrets left out.
pub open spec fn config_debug(c: ConfigView) -> Seq<char> {
    "Config { hik_url: "@ + str_debug(c.hik_url.text) + ", hik_user: "@ + str_debug(c.hik_user)
        + ", hik_pass: \"<redacted>\", webhook_url: \"<redacted>\", api_key: Sensitive, probe_url: "@
        + str_debug(c.probe_url.text) + ", health_bind: "@ + c.health_bind
        + ", fire_matcher: FireMatcher { types: "@ + list_debug(c.fire_types)
        + "] }, stream_idle: "@ + span_debug(c.stream_idle) + ", cooldown: "@ + span_debug(
        c.cooldown,
    ) + ", realert: "@ + optional_span_debug(c.realert) + ", active_ttl: "@ + span_debug(
        c.active_ttl,
    ) + ", webhook_timeout: "@ + span_debug(c.webhook_timeout) + ", webhook_attempts: "@ + decimal(
        c.webhook_attempts,
    ) + ", probe_interval: "@ + optional_span_debug(c.probe_interval) + ", reconnect_initial: "@
        + span_debug(c.reconnect_initial) + ", reconnect_max: "@ + span_debug(c.reconnect_max)
        + " }"@
}

impl Config {
    /// Every span has a number of seconds that fits.
    pub open spec fn showable(&self) -> bool {
        &&& is_showable(self@.stream_idle)
        &&& is_showable(self@.cooldown)
        &&& self@.realert matches Some(d) ==> is_showable(d)
        &&& is_showable(self@.active_ttl)
        &&& is_showable(self@.webhook_timeout)
        &&& self@.probe_interval matches Some(d) ==> is_showable(d)
        &&& is_showable(self@.reconnect_initial)
        &&& is_showable(self@.reconnect_max)
    }

    /// The configuration for a debug log or a panic message. The camera
    /// password, the webhook URL and the API key are never printed.
    pub fn debug_text(&self) -> (out: String)
        requires
            self.showable(),
        ensures
            out@ == config_debug(self@),
            out@ == "Config { hik_url: "@ + str_debug(self.hik_url.text@) + ", hik_user: "@ + str_debug(
                self.hik_user@,
            )
                + ", hik_pass: \"<redacted>\", webhook_url: \"<redacted>\", api_key: Sensitive, probe_url: "@
                + str_debug(self.probe_url.text@) + ", health_bind: "@ + self.health_bind@
                + ", fire_matcher: FireMatcher { types: "@ + list_debug(self.fire_matcher@)
                + "] }, stream_idle: "@ + duration_debug(
                (self.stream_idle.nanos / 1_000_000_000) as u64,
                (self.stream_idle.nanos % 1_000_000_000) as u32,
            ) + ", cooldown: "@ + duration_debug(
                (self.cooldown.nanos / 1_000_000_000) as u64,
                (self.cooldown.nanos % 1_000_000_000) as u32,
            ) + ", realert: "@ + (match self.realert {
                Some(d) => "Some("@ + duration_debug(
                    (d.nanos / 1_000_000_000) as u64,
                    (d.nanos % 1_000_000_000) as u32,
                ) + ")"@,
                None => "None"@,
            }) + ", active_ttl: "@ + duration_debug(
                (self.active_ttl.nanos / 1_000_000_000) as u64,
                (self.active_ttl.nanos % 1_000_000_000) as u32,
            ) + ", webhook_timeout: "@ + duration_debug(
                (self.webhook_timeout.nanos / 1_000_000_000) as u64,
                (self.webhook_timeout.nanos % 1_000_000_000) as u32,
            ) + ", webhook_attempts: "@ + decimal(self.webhook_attempts as nat)
                + ", probe_interval: "@ + (match self.probe_interval {
                Some(d) => "Some("@ + duration_debug(
                    (d.nanos / 1_000_000_000) as u64,
                    (d.nanos % 1_000_000_000) as u32,
                ) + ")"@,
                None => "None"@,
            }) + ", reconnect_initial: "@ + duration_debug(
                (self.reconnect_initial.nanos / 1_000_000_000) as u64,
                (self.reconnect_initial.nanos % 1_000_000_000) as u32,
            ) + ", reconnect_max: "@ + duration_debug(
                (self.reconnect_max.nanos / 1_000_000_000) as u64,
                (self.reconnect_max.nanos % 1_000_000_000) as u32,
            ) + " }"@,
    {
        let mut out = "Config { hik_url: ".to_owned();
        out.append(quoted(self.hik_url.as_str()).as_str());
        out.append(", hik_user: ");
        out.append(quoted(self.hik_user.as_str()).as_str());
        out.append(
            ", hik_pass: \"<redacted>\", webhook_url: \"<redacted>\", api_key: Sensitive, probe_url: ",
        );
        out.append(quoted(self.probe_url.as_str()).as_str());
        out.append(", health_bind: ");
        out.append(self.health_bind.as_str());
        out.append(", fire_matcher: FireMatcher { types: ");
        out.append(list_text(self.fire_matcher.types()).as_str());
        out.append("] }, stream_idle: ");
        out.append(span_text(self.stream_idle).as_str());
        out.append(", cooldown: ");
        out.append(span_text(self.cooldown).as_str());
        out.append(", realert: ");
        out.append(optional_span_text(self.realert).as_str());
        out.append(", active_ttl: ");
        out.append(span_text(self.active_ttl).as_str());
        out.append(", webhook_timeout: ");
        out.append(span_text(self.webhook_timeout).as_str());
        out.append(", webhook_attempts: ");
        out.append(decimal_text(self.webhook_attempts as u128).as_str());
        out.append(", probe_interval: ");
        out.append(optional_span_text(self.probe_interval).as_str());
        out.append(", reconnect_initial: ");
        out.append(span_text(self.reconnect_initial).as_str());
        out.append(", reconnect_max: ");
        out.append(span_text(self.reconnect_max).as_str());
        out.append(" }");
        out
    }
}

/// The debug text depends on none of the secrets: configurations that differ
/// in the camera password, the webhook URL and the API key alone print the
/// same.
pub proof fn lemma_debug_hides_secrets(
    c: ConfigView,
    pass: Seq<char>,
    webhook: UrlView,
    key: Seq<char>,
)
    ensures
        config_debug(c) == config_debug(
            ConfigView { hik_pass: pass, webhook_url: webhook, api_key: key, ..c },
        ),
{
}

/// A configuration that loads is safe to run with: TLS toward Protect (or
/// loopback), no zero timeout, cooldown or TTL, at least one delivery attempt,
/// reconnect delays in order and under the ceiling, and nothing required
/// missing.
pub proof fn lemma_loaded_is_safe(vars: VarMap, bind: Seq<char>)
    requires
        first_fault(vars, Ok(bind)) is None,
    ensures
        ({
            let c = loaded(vars, bind);
            &&& is_private(c.webhook_url)
            &&& is_private(c.probe_url)
            &&& c.hik_user.len() > 0
            &&& c.hik_pass.len() > 0
            &&& c.api_key.len() > 0 && is_header_text(c.api_key)
            &&& c.fire_types.len() > 0
            &&& c.stream_idle > 0
            &&& c.cooldown > 0
            &&& c.active_ttl > 0
            &&& c.webhook_timeout > 0
            &&& c.webhook_attempts >= 1
            &&& c.realert matches Some(d) ==> d > 0
            &&& c.probe_interval matches Some(d) ==> d > 0
            &&& 0 < c.reconnect_initial <= c.reconnect_max <= Duration::of_secs(
                RECONNECT_CEILING as nat,
            )
        }),
{
}

/// Two sets of variables give the same URLs.
pub open spec fn agree_on_urls(a: VarMap, b: VarMap) -> bool {
    &&& var(a, "HIKVISION_SCHEME"@) == var(b, "HIKVISION_SCHEME"@)
    &&& var(a, "HIKVISION_HOST"@) == var(b, "HIKVISION_HOST"@)
    &&& var(a, "PROTECT_WEBHOOK_URL"@) == var(b, "PROTECT_WEBHOOK_URL"@)
    &&& var(a, "PROTECT_BASE_URL"@) == var(b, "PROTECT_BASE_URL"@)
    &&& var(a, "PROTECT_WEBHOOK_ID"@) == var(b, "PROTECT_WEBHOOK_ID"@)
}

/// Two sets of variables give the same settings, the two secrets among them
/// aside.
pub open spec fn agree_on_settings(a: VarMap, b: VarMap) -> bool {
    &&& var(a, "HIKVISION_USER"@) == var(b, "HIKVISION_USER"@)
    &&& var(a, "FIRE_EVENT_TYPES"@) == var(b, "FIRE_EVENT_TYPES"@)
    &&& var(a, "WEBHOOK_ATTEMPTS"@) == var(b, "WEBHOOK_ATTEMPTS"@)
    &&& var(a, "RECONNECT_INITIAL_SECONDS"@) == var(b, "RECONNECT_INITIAL_SECONDS"@)
    &&& var(a, "RECONNECT_MAX_SECONDS"@) == var(b, "RECONNECT_MAX_SECONDS"@)
    &&& var(a, "STREAM_IDLE_TIMEOUT_SECONDS"@) == var(b, "STREAM_IDLE_TIMEOUT_SECONDS"@)
    &&& var(a, "FIRE_COOLDOWN_SECONDS"@) == var(b, "FIRE_COOLDOWN_SECONDS"@)
    &&& var(a, "FIRE_REALERT_SECONDS"@) == var(b, "FIRE_REALERT_SECONDS"@)
    &&& var(a, "FIRE_ACTIVE_TTL_SECONDS"@) == var(b, "FIRE_ACTIVE_TTL_SECONDS"@)
    &&& var(a, "WEBHOOK_TIMEOUT_SECONDS"@) == var(b, "WEBHOOK_TIMEOUT_SECONDS"@)
    &&& var(a, "PROTECT_PROBE_SECONDS"@) == var(b, "PROTECT_PROBE_SECONDS"@)
}

proof fn lemma_same_urls(a: VarMap, b: VarMap)
    requires
        agree_on_urls(a, b),
    ensures
        url_fault(a) == url_fault(b),
{
    assert(camera_url(a) == camera_url(b));
    assert(webhook_url(a) == webhook_url(b));
    assert(probe_url(a) == probe_url(b));
}

proof fn lemma_same_settings(a: VarMap, b: VarMap, bind: Result<Seq<char>, Seq<char>>)
    requires
        agree_on_settings(a, b),
        api_key(a) is Ok ==> api_key(b) is Ok,
        api_key(a) is Err ==> api_key(a) == api_key(b),
        required(a, "HIKVISION_PASS"@) is Ok ==> required(b, "HIKVISION_PASS"@) is Ok,
        required(a, "HIKVISION_PASS"@) is Err ==> required(a, "HIKVISION_PASS"@) == required(
            b,
            "HIKVISION_PASS"@,
        ),
    ensures
        setting_fault(a, bind) == setting_fault(b, bind),
{
    assert(fire_types(a) == fire_types(b));
    assert(webhook_attempts(a) == webhook_attempts(b));
    assert(required(a, "HIKVISION_USER"@) == required(b, "HIKVISION_USER"@));
    assert(seconds(a, "RECONNECT_INITIAL_SECONDS"@, 1) == seconds(b, "RECONNECT_INITIAL_SECONDS"@, 1));
    assert(seconds(a, "RECONNECT_MAX_SECONDS"@, 30) == seconds(b, "RECONNECT_MAX_SECONDS"@, 30));
    assert(seconds(a, "STREAM_IDLE_TIMEOUT_SECONDS"@, 90) == seconds(b, "STREAM_IDLE_TIMEOUT_SECONDS"@, 90));
    assert(seconds(a, "FIRE_COOLDOWN_SECONDS"@, 60) == seconds(b, "FIRE_COOLDOWN_SECONDS"@, 60));
    assert(seconds(a, "FIRE_REALERT_SECONDS"@, 60) == seconds(b, "FIRE_REALERT_SECONDS"@, 60));
    assert(seconds(a, "FIRE_ACTIVE_TTL_SECONDS"@, 300) == seconds(b, "FIRE_ACTIVE_TTL_SECONDS"@, 300));
    assert(seconds(a, "WEBHOOK_TIMEOUT_SECONDS"@, 5) == seconds(b, "WEBHOOK_TIMEOUT_SECONDS"@, 5));
    assert(seconds(a, "PROTECT_PROBE_SECONDS"@, 60) == seconds(b, "PROTECT_PROBE_SECONDS"@, 60));
}

/// What is wrong with a configuration does not depend on the camera password:
/// no error can echo it.
pub proof fn lemma_errors_hide_the_password(
    vars: VarMap,
    bind: Result<Seq<char>, Seq<char>>,
    one: Seq<char>,
    other: Seq<char>,
)
    requires
        trimmed(one).len() > 0,
        trimmed(other).len() > 0,
    ensures
        first_fault(vars.insert("HIKVISION_PASS"@, one), bind) == first_fault(
            vars.insert("HIKVISION_PASS"@, other),
            bind,
        ),
{
    let a = vars.insert("HIKVISION_PASS"@, one);
    let b = vars.insert("HIKVISION_PASS"@, other);
    lemma_names_differ();
    lemma_same_urls(a, b);
    assert(required(a, "PROTECT_API_KEY"@) == required(b, "PROTECT_API_KEY"@));
    lemma_same_settings(a, b, bind);
}

/// What is wrong with a configuration does not depend on the API key, beyond
/// whether an HTTP header can carry it: no error can echo it.
pub proof fn lemma_errors_hide_the_api_key(
    vars: VarMap,
    bind: Result<Seq<char>, Seq<char>>,
    one: Seq<char>,
    other: Seq<char>,
)
    requires
        trimmed(one).len() > 0,
        trimmed(other).len() > 0,
        is_header_text(trimmed(one)) == is_header_text(trimmed(other)),
    ensures
        first_fault(vars.insert("PROTECT_API_KEY"@, one), bind) == first_fault(
            vars.insert("PROTECT_API_KEY"@, other),
            bind,
        ),
{
    let a = vars.insert("PROTECT_API_KEY"@, one);
    let b = vars.insert("PROTECT_API_KEY"@, other);
    lemma_names_differ();
    lemma_same_urls(a, b);
    assert(required(a, "HIKVISION_PASS"@) == required(b, "HIKVISION_PASS"@));
    lemma_same_settings(a, b, bind);
}

/// Two readings of a URL that the rest of the configuration cannot tell apart:
/// the same error, or both as private or as little private.
pub open spec fn same_standing(
    one: Result<UrlView, Seq<char>>,
    other: Result<UrlView, Seq<char>>,
) -> bool {
    match (one, other) {
        (Ok(u), Ok(v)) => is_private(u) == is_private(v),
        (Err(e), Err(f)) => e == f,
        _ => false,
    }
}

/// What is wrong with a configuration does not depend on the webhook URL,
/// beyond the standing of it and of its server's root. Its error is one of a
/// few fixed texts, so no error can echo it.
pub proof fn lemma_errors_hide_the_webhook_url(
    vars: VarMap,
    bind: Result<Seq<char>, Seq<char>>,
    one: Seq<char>,
    other: Seq<char>,
)
    requires
        trimmed(one).len() > 0,
        trimmed(other).len() > 0,
        same_standing(url_parse(trimmed(one)), url_parse(trimmed(other))),
        filled(vars, "PROTECT_BASE_URL"@) is None ==> is_private(
            url_join(trimmed(one), "/"@)->Ok_0,
        ) == is_private(url_join(trimmed(other), "/"@)->Ok_0),
    ensures
        first_fault(vars.insert("PROTECT_WEBHOOK_URL"@, one), bind) == first_fault(
            vars.insert("PROTECT_WEBHOOK_URL"@, other),
            bind,
        ),
{
    let a = vars.insert("PROTECT_WEBHOOK_URL"@, one);
    let b = vars.insert("PROTECT_WEBHOOK_URL"@, other);
    lemma_webhook_names_differ();
    assert(camera_url(a) == camera_url(b));
    assert(webhook_url(a) is Err ==> webhook_url(a) == webhook_url(b));
    assert(filled(a, "PROTECT_BASE_URL"@) == filled(vars, "PROTECT_BASE_URL"@));
    assert(filled(b, "PROTECT_BASE_URL"@) == filled(vars, "PROTECT_BASE_URL"@));
    assert(url_fault(a) == url_fault(b));
    assert(api_key(a) == api_key(b));
    assert(required(a, "HIKVISION_PASS"@) == required(b, "HIKVISION_PASS"@));
    lemma_same_settings(a, b, bind);
}

/// What is wrong with a configuration does not depend on the webhook ID, beyond
/// its alphabet and the standing of the URL it makes. The error of that is one
/// of a few fixed texts, so no error can echo it.
pub proof fn lemma_errors_hide_the_webhook_id(
    vars: VarMap,
    bind: Result<Seq<char>, Seq<char>>,
    one: Seq<char>,
    other: Seq<char>,
)
    requires
        trimmed(one).len() > 0,
        trimmed(other).len() > 0,
        is_webhook_id(trimmed(one)) == is_webhook_id(trimmed(other)),
        filled(vars, "PROTECT_BASE_URL"@) matches Some(base) ==> same_standing(
            url_join(base, WEBHOOK_PATH@ + trimmed(one)),
            url_join(base, WEBHOOK_PATH@ + trimmed(other)),
        ),
    ensures
        first_fault(vars.insert("PROTECT_WEBHOOK_ID"@, one), bind) == first_fault(
            vars.insert("PROTECT_WEBHOOK_ID"@, other),
            bind,
        ),
{
    let a = vars.insert("PROTECT_WEBHOOK_ID"@, one);
    let b = vars.insert("PROTECT_WEBHOOK_ID"@, other);
    lemma_webhook_names_differ();
    assert(camera_url(a) == camera_url(b));
    assert(filled(a, "PROTECT_BASE_URL"@) == filled(vars, "PROTECT_BASE_URL"@));
    assert(filled(b, "PROTECT_BASE_URL"@) == filled(vars, "PROTECT_BASE_URL"@));
    assert(filled(a, "PROTECT_WEBHOOK_URL"@) == filled(b, "PROTECT_WEBHOOK_URL"@));
    assert(required(a, "PROTECT_WEBHOOK_ID"@) == Ok::<Seq<char>, Fault>(trimmed(one)));
    assert(required(b, "PROTECT_WEBHOOK_ID"@) == Ok::<Seq<char>, Fault>(trimmed(other)));
    assert(webhook_url(a) is Err ==> webhook_url(a) == webhook_url(b));
    assert(probe_url(a) == probe_url(b));
    assert(url_fault(a) == url_fault(b));
    assert(api_key(a) == api_key(b));
    assert(required(a, "HIKVISION_PASS"@) == required(b, "HIKVISION_PASS"@));
    lemma_same_settings(a, b, bind);
}

/// The webhook's URL and ID are read under names of their own.
proof fn lemma_webhook_names_differ()
    ensures
        "HIKVISION_SCHEME"@ != "PROTECT_WEBHOOK_URL"@,
        "HIKVISION_HOST"@ != "PROTECT_WEBHOOK_URL"@,
        "PROTECT_BASE_URL"@ != "PROTECT_WEBHOOK_URL"@,
        "PROTECT_WEBHOOK_ID"@ != "PROTECT_WEBHOOK_URL"@,
        "HIKVISION_USER"@ != "PROTECT_WEBHOOK_URL"@,
        "FIRE_EVENT_TYPES"@ != "PROTECT_WEBHOOK_URL"@,
        "WEBHOOK_ATTEMPTS"@ != "PROTECT_WEBHOOK_URL"@,
        "RECONNECT_INITIAL_SECONDS"@ != "PROTECT_WEBHOOK_URL"@,
        "RECONNECT_MAX_SECONDS"@ != "PROTECT_WEBHOOK_URL"@,
        "STREAM_IDLE_TIMEOUT_SECONDS"@ != "PROTECT_WEBHOOK_URL"@,
        "FIRE_COOLDOWN_SECONDS"@ != "PROTECT_WEBHOOK_URL"@,
        "FIRE_REALERT_SECONDS"@ != "PROTECT_WEBHOOK_URL"@,
        "FIRE_ACTIVE_TTL_SECONDS"@ != "PROTECT_WEBHOOK_URL"@,
        "WEBHOOK_TIMEOUT_SECONDS"@ != "PROTECT_WEBHOOK_URL"@,
        "PROTECT_PROBE_SECONDS"@ != "PROTECT_WEBHOOK_URL"@,
        "HIKVISION_PASS"@ != "PROTECT_WEBHOOK_URL"@,
        "PROTECT_API_KEY"@ != "PROTECT_WEBHOOK_URL"@,
        "HIKVISION_SCHEME"@ != "PROTECT_WEBHOOK_ID"@,
        "HIKVISION_HOST"@ != "PROTECT_WEBHOOK_ID"@,
        "PROTECT_WEBHOOK_URL"@ != "PROTECT_WEBHOOK_ID"@,
        "PROTECT_BASE_URL"@ != "PROTECT_WEBHOOK_ID"@,
        "HIKVISION_USER"@ != "PROTECT_WEBHOOK_ID"@,
        "FIRE_EVENT_TYPES"@ != "PROTECT_WEBHOOK_ID"@,
        "WEBHOOK_ATTEMPTS"@ != "PROTECT_WEBHOOK_ID"@,
        "RECONNECT_INITIAL_SECONDS"@ != "PROTECT_WEBHOOK_ID"@,
        "RECONNECT_MAX_SECONDS"@ != "PROTECT_WEBHOOK_ID"@,
        "STREAM_IDLE_TIMEOUT_SECONDS"@ != "PROTECT_WEBHOOK_ID"@,
        "FIRE_COOLDOWN_SECONDS"@ != "PROTECT_WEBHOOK_ID"@,
        "FIRE_REALERT_SECONDS"@ != "PROTECT_WEBHOOK_ID"@,
        "FIRE_ACTIVE_TTL_SECONDS"@ != "PROTECT_WEBHOOK_ID"@,
        "WEBHOOK_TIMEOUT_SECONDS"@ != "PROTECT_WEBHOOK_ID"@,
        "PROTECT_PROBE_SECONDS"@ != "PROTECT_WEBHOOK_ID"@,
        "HIKVISION_PASS"@ != "PROTECT_WEBHOOK_ID"@,
        "PROTECT_API_KEY"@ != "PROTECT_WEBHOOK_ID"@,
{
    reveal_strlit("HIKVISION_SCHEME");
    reveal_strlit("HIKVISION_HOST");
    reveal_strlit("PROTECT_WEBHOOK_URL");
    reveal_strlit("PROTECT_BASE_URL");
    reveal_strlit("PROTECT_WEBHOOK_ID");
    reveal_strlit("HIKVISION_USER");
    reveal_strlit("FIRE_EVENT_TYPES");
    reveal_strlit("WEBHOOK_ATTEMPTS");
    reveal_strlit("RECONNECT_INITIAL_SECONDS");
    reveal_strlit("RECONNECT_MAX_SECONDS");
    reveal_strlit("STREAM_IDLE_TIMEOUT_SECONDS");
    reveal_strlit("FIRE_COOLDOWN_SECONDS");
    reveal_strlit("FIRE_REALERT_SECONDS");
    reveal_strlit("FIRE_ACTIVE_TTL_SECONDS");
    reveal_strlit("WEBHOOK_TIMEOUT_SECONDS");
    reveal_strlit("PROTECT_PROBE_SECONDS");
    reveal_strlit("HIKVISION_PASS");
    reveal_strlit("PROTECT_API_KEY");
    assert("HIKVISION_SCHEME"@.len() != "PROTECT_WEBHOOK_URL"@.len());
    assert("HIKVISION_HOST"@.len() != "PROTECT_WEBHOOK_URL"@.len());
    assert("PROTECT_BASE_URL"@.len() != "PROTECT_WEBHOOK_URL"@.len());
    assert("PROTECT_WEBHOOK_ID"@.len() != "PROTECT_WEBHOOK_URL"@.len());
    assert("HIKVISION_USER"@.len() != "PROTECT_WEBHOOK_URL"@.len());
    assert("FIRE_EVENT_TYPES"@.len() != "PROTECT_WEBHOOK_URL"@.len());
    assert("WEBHOOK_ATTEMPTS"@.len() != "PROTECT_WEBHOOK_URL"@.len());
    assert("RECONNECT_INITIAL_SECONDS"@.len() != "PROTECT_WEBHOOK_URL"@.len());
    assert("RECONNECT_MAX_SECONDS"@.len() != "PROTECT_WEBHOOK_URL"@.len());
    assert("STREAM_IDLE_TIMEOUT_SECONDS"@.len() != "PROTECT_WEBHOOK_URL"@.len());
    assert("FIRE_COOLDOWN_SECONDS"@.len() != "PROTECT_WEBHOOK_URL"@.len());
    assert("FIRE_REALERT_SECONDS"@.len() != "PROTECT_WEBHOOK_URL"@.len());
    assert("FIRE_ACTIVE_TTL_SECONDS"@.len() != "PROTECT_WEBHOOK_URL"@.len());
    assert("WEBHOOK_TIMEOUT_SECONDS"@.len() != "PROTECT_WEBHOOK_URL"@.len());
    assert("PROTECT_PROBE_SECONDS"@.len() != "PROTECT_WEBHOOK_URL"@.len());
    assert("HIKVISION_PASS"@.len() != "PROTECT_WEBHOOK_URL"@.len());
    assert("PROTECT_API_KEY"@.len() != "PROTECT_WEBHOOK_URL"@.len());
    assert("HIKVISION_SCHEME"@.len() != "PROTECT_WEBHOOK_ID"@.len());
    assert("HIKVISION_HOST"@.len() != "PROTECT_WEBHOOK_ID"@.len());
    assert("PROTECT_WEBHOOK_URL"@.len() != "PROTECT_WEBHOOK_ID"@.len());
    assert("PROTECT_BASE_URL"@.len() != "PROTECT_WEBHOOK_ID"@.len());
    assert("HIKVISION_USER"@.len() != "PROTECT_WEBHOOK_ID"@.len());
    assert("FIRE_EVENT_TYPES"@.len() != "PROTECT_WEBHOOK_ID"@.len());
    assert("WEBHOOK_ATTEMPTS"@.len() != "PROTECT_WEBHOOK_ID"@.len());
    assert("RECONNECT_INITIAL_SECONDS"@.len() != "PROTECT_WEBHOOK_ID"@.len());
    assert("RECONNECT_MAX_SECONDS"@.len() != "PROTECT_WEBHOOK_ID"@.len());
    assert("STREAM_IDLE_TIMEOUT_SECONDS"@.len() != "PROTECT_WEBHOOK_ID"@.len());
    assert("FIRE_COOLDOWN_SECONDS"@.len() != "PROTECT_WEBHOOK_ID"@.len());
    assert("FIRE_REALERT_SECONDS"@.len() != "PROTECT_WEBHOOK_ID"@.len());
    assert("FIRE_ACTIVE_TTL_SECONDS"@.len() != "PROTECT_WEBHOOK_ID"@.len());
    assert("WEBHOOK_TIMEOUT_SECONDS"@.len() != "PROTECT_WEBHOOK_ID"@.len());
    assert("PROTECT_PROBE_SECONDS"@.len() != "PROTECT_WEBHOOK_ID"@.len());
    assert("HIKVISION_PASS"@.len() != "PROTECT_WEBHOOK_ID"@.len());
    assert("PROTECT_API_KEY"@.len() != "PROTECT_WEBHOOK_ID"@.len());
}

/// The two secrets are read under names of their own.
proof fn lemma_names_differ()
    ensures
        "HIKVISION_PASS"@ != "PROTECT_API_KEY"@,
        "HIKVISION_SCHEME"@ != "HIKVISION_PASS"@ && "HIKVISION_SCHEME"@ != "PROTECT_API_KEY"@,
        "HIKVISION_HOST"@ != "HIKVISION_PASS"@ && "HIKVISION_HOST"@ != "PROTECT_API_KEY"@,
        "HIKVISION_USER"@ != "HIKVISION_PASS"@ && "HIKVISION_USER"@ != "PROTECT_API_KEY"@,
        "PROTECT_WEBHOOK_URL"@ != "HIKVISION_PASS"@ && "PROTECT_WEBHOOK_URL"@ != "PROTECT_API_KEY"@,
        "PROTECT_BASE_URL"@ != "HIKVISION_PASS"@ && "PROTECT_BASE_URL"@ != "PROTECT_API_KEY"@,
        "PROTECT_WEBHOOK_ID"@ != "HIKVISION_PASS"@ && "PROTECT_WEBHOOK_ID"@ != "PROTECT_API_KEY"@,
        "FIRE_EVENT_TYPES"@ != "HIKVISION_PASS"@ && "FIRE_EVENT_TYPES"@ != "PROTECT_API_KEY"@,
        "WEBHOOK_ATTEMPTS"@ != "HIKVISION_PASS"@ && "WEBHOOK_ATTEMPTS"@ != "PROTECT_API_KEY"@,
        "RECONNECT_INITIAL_SECONDS"@ != "HIKVISION_PASS"@ && "RECONNECT_INITIAL_SECONDS"@ != "PROTECT_API_KEY"@,
        "RECONNECT_MAX_SECONDS"@ != "HIKVISION_PASS"@ && "RECONNECT_MAX_SECONDS"@ != "PROTECT_API_KEY"@,
        "STREAM_IDLE_TIMEOUT_SECONDS"@ != "HIKVISION_PASS"@ && "STREAM_IDLE_TIMEOUT_SECONDS"@ != "PROTECT_API_KEY"@,
        "FIRE_COOLDOWN_SECONDS"@ != "HIKVISION_PASS"@ && "FIRE_COOLDOWN_SECONDS"@ != "PROTECT_API_KEY"@,
        "FIRE_REALERT_SECONDS"@ != "HIKVISION_PASS"@ && "FIRE_REALERT_SECONDS"@ != "PROTECT_API_KEY"@,
        "FIRE_ACTIVE_TTL_SECONDS"@ != "HIKVISION_PASS"@ && "FIRE_ACTIVE_TTL_SECONDS"@ != "PROTECT_API_KEY"@,
        "WEBHOOK_TIMEOUT_SECONDS"@ != "HIKVISION_PASS"@ && "WEBHOOK_TIMEOUT_SECONDS"@ != "PROTECT_API_KEY"@,
        "PROTECT_PROBE_SECONDS"@ != "HIKVISION_PASS"@ && "PROTECT_PROBE_SECONDS"@ != "PROTECT_API_KEY"@,
{
    reveal_strlit("HIKVISION_PASS");
    reveal_strlit("PROTECT_API_KEY");
    reveal_strlit("HIKVISION_SCHEME");
    assert("HIKVISION_SCHEME"@.len() != "HIKVISION_PASS"@.len());
    assert("HIKVISION_SCHEME"@.len() != "PROTECT_API_KEY"@.len());
    reveal_strlit("HIKVISION_HOST");
    assert("HIKVISION_HOST"@[10] != "HIKVISION_PASS"@[10]);
    assert("HIKVISION_HOST"@.len() != "PROTECT_API_KEY"@.len());
    reveal_strlit("HIKVISION_USER");
    assert("HIKVISION_USER"@[10] != "HIKVISION_PASS"@[10]);
    assert("HIKVISION_USER"@.len() != "PROTECT_API_KEY"@.len());
    reveal_strlit("PROTECT_WEBHOOK_URL");
    assert("PROTECT_WEBHOOK_URL"@.len() != "HIKVISION_PASS"@.len());
    assert("PROTECT_WEBHOOK_URL"@.len() != "PROTECT_API_KEY"@.len());
    reveal_strlit("PROTECT_BASE_URL");
    assert("PROTECT_BASE_URL"@.len() != "HIKVISION_PASS"@.len());
    assert("PROTECT_BASE_URL"@.len() != "PROTECT_API_KEY"@.len());
    reveal_strlit("PROTECT_WEBHOOK_ID");
    assert("PROTECT_WEBHOOK_ID"@.len() != "HIKVISION_PASS"@.len());
    assert("PROTECT_WEBHOOK_ID"@.len() != "PROTECT_API_KEY"@.len());
    reveal_strlit("FIRE_EVENT_TYPES");
    assert("FIRE_EVENT_TYPES"@.len() != "HIKVISION_PASS"@.len());
    assert("FIRE_EVENT_TYPES"@.len() != "PROTECT_API_KEY"@.len());
    reveal_strlit("WEBHOOK_ATTEMPTS");
    assert("WEBHOOK_ATTEMPTS"@.len() != "HIKVISION_PASS"@.len());
    assert("WEBHOOK_ATTEMPTS"@.len() != "PROTECT_API_KEY"@.len());
    reveal_strlit("RECONNECT_INITIAL_SECONDS");
    assert("RECONNECT_INITIAL_SECONDS"@.len() != "HIKVISION_PASS"@.len());
    assert("RECONNECT_INITIAL_SECONDS"@.len() != "PROTECT_API_KEY"@.len());
    reveal_strlit("RECONNECT_MAX_SECONDS");
    assert("RECONNECT_MAX_SECONDS"@.len() != "HIKVISION_PASS"@.len());
    assert("RECONNECT_MAX_SECONDS"@.len() != "PROTECT_API_KEY"@.len());
    reveal_strlit("STREAM_IDLE_TIMEOUT_SECONDS");
    assert("STREAM_IDLE_TIMEOUT_SECONDS"@.len() != "HIKVISION_PASS"@.len());
    assert("STREAM_IDLE_TIMEOUT_SECONDS"@.len() != "PROTECT_API_KEY"@.len());
    reveal_strlit("FIRE_COOLDOWN_SECONDS");
    assert("FIRE_COOLDOWN_SECONDS"@.len() != "HIKVISION_PASS"@.len());
    assert("FIRE_COOLDOWN_SECONDS"@.len() != "PROTECT_API_KEY"@.len());
    reveal_strlit("FIRE_REALERT_SECONDS");
    assert("FIRE_REALERT_SECONDS"@.len() != "HIKVISION_PASS"@.len());
    assert("FIRE_REALERT_SECONDS"@.len() != "PROTECT_API_KEY"@.len());
    reveal_strlit("FIRE_ACTIVE_TTL_SECONDS");
    assert("FIRE_ACTIVE_TTL_SECONDS"@.len() != "HIKVISION_PASS"@.len());
    assert("FIRE_ACTIVE_TTL_SECONDS"@.len() != "PROTECT_API_KEY"@.len());
    reveal_strlit("WEBHOOK_TIMEOUT_SECONDS");
    assert("WEBHOOK_TIMEOUT_SECONDS"@.len() != "HIKVISION_PASS"@.len());
    assert("WEBHOOK_TIMEOUT_SECONDS"@.len() != "PROTECT_API_KEY"@.len());
    reveal_strlit("PROTECT_PROBE_SECONDS");
    assert("PROTECT_PROBE_SECONDS"@.len() != "HIKVISION_PASS"@.len());
    assert("PROTECT_PROBE_SECONDS"@.len() != "PROTECT_API_KEY"@.len());
    assert("HIKVISION_PASS"@.len() != "PROTECT_API_KEY"@.len());
}

/// Every tunable has a default: variables that set none of them give these
/// values, whatever they say otherwise.
pub proof fn lemma_defaults(
    vars: VarMap,
    camera: UrlView,
    webhook: UrlView,
    probe: UrlView,
    bind: Seq<char>,
)
    requires
        var(vars, "FIRE_EVENT_TYPES"@) is None,
        var(vars, "FIRE_COOLDOWN_SECONDS"@) is None,
        var(vars, "FIRE_REALERT_SECONDS"@) is None,
        var(vars, "FIRE_ACTIVE_TTL_SECONDS"@) is None,
        var(vars, "PROTECT_PROBE_SECONDS"@) is None,
        var(vars, "STREAM_IDLE_TIMEOUT_SECONDS"@) is None,
        var(vars, "WEBHOOK_TIMEOUT_SECONDS"@) is None,
        var(vars, "WEBHOOK_ATTEMPTS"@) is None,
        var(vars, "RECONNECT_INITIAL_SECONDS"@) is None,
        var(vars, "RECONNECT_MAX_SECONDS"@) is None,
        api_key(vars) is Ok,
        required(vars, "HIKVISION_USER"@) is Ok,
        required(vars, "HIKVISION_PASS"@) is Ok,
    ensures
        setting_fault(vars, Ok(bind)) is None,
        ({
            let c = settings(vars, camera, webhook, probe, bind);
            &&& c.fire_types == default_types()
            &&& c.cooldown == Duration::of_secs(60)
            &&& c.realert == Some(Duration::of_secs(60))
            &&& c.active_ttl == Duration::of_secs(300)
            &&& c.probe_interval == Some(Duration::of_secs(60))
            &&& c.stream_idle == Duration::of_secs(90)
            &&& c.webhook_timeout == Duration::of_secs(5)
            &&& c.webhook_attempts == 3
            &&& c.reconnect_initial == Duration::of_secs(1)
            &&& c.reconnect_max == Duration::of_secs(30)
        }),
{
}

/// A webhook URL given in full replaces the base URL and the ID.
pub proof fn lemma_full_webhook_url_wins(vars: VarMap, name: Seq<char>, value: Seq<char>)
    requires
        filled(vars, "PROTECT_WEBHOOK_URL"@) is Some,
        name == "PROTECT_BASE_URL"@ || name == "PROTECT_WEBHOOK_ID"@,
    ensures
        webhook_url(vars.insert(name, value)) == webhook_url(vars),
        webhook_url(vars.remove(name)) == webhook_url(vars),
{
    reveal_strlit("PROTECT_WEBHOOK_URL");
    reveal_strlit("PROTECT_BASE_URL");
    reveal_strlit("PROTECT_WEBHOOK_ID");
    assert("PROTECT_WEBHOOK_URL"@.len() != "PROTECT_BASE_URL"@.len());
    assert("PROTECT_WEBHOOK_URL"@.len() != "PROTECT_WEBHOOK_ID"@.len());
}

/// `parts` with commas between them.
pub open spec fn comma_joined(parts: Seq<Seq<char>>) -> Seq<char>
    decreases parts.len(),
{
    if parts.len() == 0 {
        Seq::empty()
    } else if parts.len() == 1 {
        parts[0]
    } else {
        comma_joined(parts.drop_last()).push(',') + parts.last()
    }
}

/// The fields are what the commas of the list separate: no field holds a
/// comma, and the fields joined by commas are the list.
pub proof fn lemma_fields_are_comma_separated(csv: Seq<char>)
    ensures
        fields(csv).len() > 0,
        forall|i: int| 0 <= i < fields(csv).len() ==> !(#[trigger] fields(csv)[i]).contains(','),
        comma_joined(fields(csv)) == csv,
    decreases csv.len(),
{
    if csv.len() == 0 {
        assert(comma_joined(fields(csv)) =~= csv);
    } else {
        let before = fields(csv.drop_last());
        let now = fields(csv);
        lemma_fields_are_comma_separated(csv.drop_last());
        if csv.last() == ',' {
            assert(now.drop_last() =~= before);
            assert(comma_joined(now) =~= csv.drop_last().push(','));
        } else {
            let last = before.last().push(csv.last());
            assert(now.drop_last() =~= before.drop_last());
            assert(now.last() == last);
            assert(!last.contains(',')) by {
                if last.contains(',') {
                    let j = choose|j: int| 0 <= j < last.len() && last[j] == ',';
                    assert(before.last()[j] == ',');
                }
            }
            assert forall|i: int| 0 <= i < now.len() implies !(#[trigger] now[i]).contains(',') by {
                if i < now.len() - 1 {
                    assert(now[i] == before[i]);
                }
            }
            assert(comma_joined(now) =~= comma_joined(before).push(csv.last()));
        }
        assert(csv.drop_last().push(csv.last()) =~= csv);
    }
}

/// A configured list matches an event type exactly where one of its fields is
/// that type, up to letter case and surrounding white space.
pub proof fn lemma_list_matches_its_fields(csv: Seq<char>, event_type: Seq<char>)
    requires
        normalised(event_type).len() > 0,
    ensures
        listed(csv).contains(normalised(event_type)) <==> exists|i: int|
            0 <= i < fields(csv).len() && normalised(#[trigger] fields(csv)[i]) == normalised(
                event_type,
            ),
{
    lemma_kept_holds(fields(csv), normalised(event_type));
}

proof fn lemma_kept_holds(parts: Seq<Seq<char>>, wanted: Seq<char>)
    requires
        wanted.len() > 0,
    ensures
        kept(parts).contains(wanted) <==> exists|i: int|
            0 <= i < parts.len() && normalised(#[trigger] parts[i]) == wanted,
    decreases parts.len(),
{
    if parts.len() > 0 {
        let rest = parts.drop_last();
        lemma_kept_holds(rest, wanted);
        let last = normalised(parts.last());
        if kept(parts).contains(wanted) {
            let j = choose|j: int| 0 <= j < kept(parts).len() && kept(parts)[j] == wanted;
            if j < kept(rest).len() {
                assert(kept(rest)[j] == wanted);
                let i = choose|i: int|
                    0 <= i < rest.len() && normalised(#[trigger] rest[i]) == wanted;
                assert(normalised(parts[i]) == wanted);
            } else {
                assert(normalised(parts[parts.len() - 1]) == wanted);
            }
        }
        if exists|i: int| 0 <= i < parts.len() && normalised(#[trigger] parts[i]) == wanted {
            let i = choose|i: int| 0 <= i < parts.len() && normalised(#[trigger] parts[i]) == wanted;
            if i < rest.len() {
                assert(normalised(rest[i]) == wanted);
                let j = choose|j: int| 0 <= j < kept(rest).len() && kept(rest)[j] == wanted;
                assert(kept(parts)[j] == wanted);
            } else {
                assert(kept(parts)[kept(parts).len() - 1] == wanted);
            }
        }
    }
}

/// How a variable is read, whatever its name: without white space around it;
/// one that must be there and is not, or is empty, is named in the error; and a
/// number of seconds is a whole number, or else the error says what is wrong
/// with it.
pub proof fn lemma_variable_by_variable(vars: VarMap, name: Seq<char>, default: nat, e: IntError)
    ensures
        vars.contains_key(name) ==> var(vars, name) == Some(trimmed(vars[name])),
        !vars.contains_key(name) ==> var(vars, name) is None,
        vars.contains_key(name) && trimmed(vars[name]).len() > 0 ==> filled(vars, name) == Some(
            trimmed(vars[name]),
        ) && required(vars, name) == Ok::<Seq<char>, Fault>(trimmed(vars[name])),
        !(vars.contains_key(name) && trimmed(vars[name]).len() > 0) ==> filled(vars, name) is None
            && required(vars, name) == Err::<Seq<char>, Fault>(
            Fault { context: name + " is required and must not be empty"@, cause: None },
        ),
        !vars.contains_key(name) ==> seconds(vars, name, default) == Ok::<int, Fault>(
            (default * 1_000_000_000) as int,
        ),
        vars.contains_key(name) ==> match whole_number(
            trimmed(vars[name]),
            18_446_744_073_709_551_615,
        ) {
            Ok(n) => seconds(vars, name, default) == Ok::<int, Fault>((n * 1_000_000_000) as int),
            Err(e) => seconds(vars, name, default) == Err::<int, Fault>(
                Fault {
                    context: name + " must be a whole number of seconds"@,
                    cause: Some(int_error(e)),
                },
            ),
        },
        match seconds(vars, name, default) {
            Ok(nanos) => nonzero_seconds(vars, name, default) == if nanos == 0 {
                Err::<int, Fault>(
                    Fault { context: name + " must be greater than zero"@, cause: None },
                )
            } else {
                Ok::<int, Fault>(nanos)
            },
            Err(f) => nonzero_seconds(vars, name, default) == Err::<int, Fault>(f),
        },
        e is Empty ==> int_error(e) == "cannot parse integer from empty string"@,
        e is InvalidDigit ==> int_error(e) == "invalid digit found in string"@,
        e is TooLarge ==> int_error(e) == "number too large to fit in target type"@,
{
}

/// Each tunable is read from the variable of its own name, whatever the other
/// variables hold: where that variable writes the whole number `n`, the tunable
/// is `n` seconds, or `n` attempts; zero turns off the reminder and the probe;
/// and where it is not there the tunable has its default.
pub proof fn lemma_each_tunable_has_its_variable(
    vars: VarMap,
    camera: UrlView,
    webhook: UrlView,
    probe: UrlView,
    bind: Seq<char>,
    value: Seq<char>,
    n: nat,
)
    requires
        setting_fault(vars, Ok(bind)) is None,
        whole_number(trimmed(value), 18_446_744_073_709_551_615) == Ok::<nat, IntError>(n),
    ensures
        ({
            let c = settings(vars, camera, webhook, probe, bind);
            &&& vars.contains_key("STREAM_IDLE_TIMEOUT_SECONDS"@) && vars["STREAM_IDLE_TIMEOUT_SECONDS"@] == value ==> c.stream_idle == n
                * 1_000_000_000
            &&& !vars.contains_key("STREAM_IDLE_TIMEOUT_SECONDS"@) ==> c.stream_idle == 90_000_000_000
            &&& vars.contains_key("FIRE_COOLDOWN_SECONDS"@) && vars["FIRE_COOLDOWN_SECONDS"@] == value ==> c.cooldown == n
                * 1_000_000_000
            &&& !vars.contains_key("FIRE_COOLDOWN_SECONDS"@) ==> c.cooldown == 60_000_000_000
            &&& vars.contains_key("FIRE_ACTIVE_TTL_SECONDS"@) && vars["FIRE_ACTIVE_TTL_SECONDS"@] == value ==> c.active_ttl == n
                * 1_000_000_000
            &&& !vars.contains_key("FIRE_ACTIVE_TTL_SECONDS"@) ==> c.active_ttl == 300_000_000_000
            &&& vars.contains_key("WEBHOOK_TIMEOUT_SECONDS"@) && vars["WEBHOOK_TIMEOUT_SECONDS"@] == value ==> c.webhook_timeout == n
                * 1_000_000_000
            &&& !vars.contains_key("WEBHOOK_TIMEOUT_SECONDS"@) ==> c.webhook_timeout == 5_000_000_000
            &&& vars.contains_key("RECONNECT_INITIAL_SECONDS"@) && vars["RECONNECT_INITIAL_SECONDS"@] == value ==> c.reconnect_initial == n
                * 1_000_000_000
            &&& !vars.contains_key("RECONNECT_INITIAL_SECONDS"@) ==> c.reconnect_initial == 1_000_000_000
            &&& vars.contains_key("RECONNECT_MAX_SECONDS"@) && vars["RECONNECT_MAX_SECONDS"@] == value ==> c.reconnect_max == n
                * 1_000_000_000
            &&& !vars.contains_key("RECONNECT_MAX_SECONDS"@) ==> c.reconnect_max == 30_000_000_000
            &&& vars.contains_key("FIRE_REALERT_SECONDS"@) && vars["FIRE_REALERT_SECONDS"@] == value ==> c.realert == if n
                == 0 {
                None::<int>
            } else {
                Some((n * 1_000_000_000) as int)
            }
            &&& !vars.contains_key("FIRE_REALERT_SECONDS"@) ==> c.realert == Some(60_000_000_000int)
            &&& vars.contains_key("PROTECT_PROBE_SECONDS"@) && vars["PROTECT_PROBE_SECONDS"@] == value ==> c.probe_interval == if n
                == 0 {
                None::<int>
            } else {
                Some((n * 1_000_000_000) as int)
            }
            &&& !vars.contains_key("PROTECT_PROBE_SECONDS"@) ==> c.probe_interval == Some(60_000_000_000int)
            &&& vars.contains_key("WEBHOOK_ATTEMPTS"@) && vars["WEBHOOK_ATTEMPTS"@] == value && n
                <= 4_294_967_295 && whole_number(trimmed(value), 4_294_967_295) == Ok::<
                nat,
                IntError,
            >(n) ==> c.webhook_attempts == n
            &&& !vars.contains_key("WEBHOOK_ATTEMPTS"@) ==> c.webhook_attempts == 3
        }),
{
}

/// The same of the decimal text of a number: a tunable whose variable holds it,
/// with or without white space around it, is that many seconds or attempts.
pub proof fn lemma_tunable_in_decimal(
    vars: VarMap,
    camera: UrlView,
    webhook: UrlView,
    probe: UrlView,
    bind: Seq<char>,
    value: Seq<char>,
    n: nat,
)
    requires
        setting_fault(vars, Ok(bind)) is None,
        trimmed(value) == decimal(n),
        n <= 18_446_744_073_709_551_615,
    ensures
        ({
            let c = settings(vars, camera, webhook, probe, bind);
            &&& vars.contains_key("STREAM_IDLE_TIMEOUT_SECONDS"@) && vars["STREAM_IDLE_TIMEOUT_SECONDS"@] == value ==> c.stream_idle == n
                * 1_000_000_000
            &&& !vars.contains_key("STREAM_IDLE_TIMEOUT_SECONDS"@) ==> c.stream_idle == 90_000_000_000
            &&& vars.contains_key("FIRE_COOLDOWN_SECONDS"@) && vars["FIRE_COOLDOWN_SECONDS"@] == value ==> c.cooldown == n
                * 1_000_000_000
            &&& !vars.contains_key("FIRE_COOLDOWN_SECONDS"@) ==> c.cooldown == 60_000_000_000
            &&& vars.contains_key("FIRE_ACTIVE_TTL_SECONDS"@) && vars["FIRE_ACTIVE_TTL_SECONDS"@] == value ==> c.active_ttl == n
                * 1_000_000_000
            &&& !vars.contains_key("FIRE_ACTIVE_TTL_SECONDS"@) ==> c.active_ttl == 300_000_000_000
            &&& vars.contains_key("WEBHOOK_TIMEOUT_SECONDS"@) && vars["WEBHOOK_TIMEOUT_SECONDS"@] == value ==> c.webhook_timeout == n
                * 1_000_000_000
            &&& !vars.contains_key("WEBHOOK_TIMEOUT_SECONDS"@) ==> c.webhook_timeout == 5_000_000_000
            &&& vars.contains_key("RECONNECT_INITIAL_SECONDS"@) && vars["RECONNECT_INITIAL_SECONDS"@] == value ==> c.reconnect_initial == n
                * 1_000_000_000
            &&& !vars.contains_key("RECONNECT_INITIAL_SECONDS"@) ==> c.reconnect_initial == 1_000_000_000
            &&& vars.contains_key("RECONNECT_MAX_SECONDS"@) && vars["RECONNECT_MAX_SECONDS"@] == value ==> c.reconnect_max == n
                * 1_000_000_000
            &&& !vars.contains_key("RECONNECT_MAX_SECONDS"@) ==> c.reconnect_max == 30_000_000_000
            &&& vars.contains_key("FIRE_REALERT_SECONDS"@) && vars["FIRE_REALERT_SECONDS"@] == value ==> c.realert == if n
                == 0 {
                None::<int>
            } else {
                Some((n * 1_000_000_000) as int)
            }
            &&& !vars.contains_key("FIRE_REALERT_SECONDS"@) ==> c.realert == Some(60_000_000_000int)
            &&& vars.contains_key("PROTECT_PROBE_SECONDS"@) && vars["PROTECT_PROBE_SECONDS"@] == value ==> c.probe_interval == if n
                == 0 {
                None::<int>
            } else {
                Some((n * 1_000_000_000) as int)
            }
            &&& !vars.contains_key("PROTECT_PROBE_SECONDS"@) ==> c.probe_interval == Some(60_000_000_000int)
            &&& vars.contains_key("WEBHOOK_ATTEMPTS"@) && vars["WEBHOOK_ATTEMPTS"@] == value
                ==> c.webhook_attempts == n
        }),
{
    lemma_decimal_is_read(n, 18_446_744_073_709_551_615);
    lemma_decimal_is_read(n, 4_294_967_295);
    lemma_each_tunable_has_its_variable(vars, camera, webhook, probe, bind, value, n);
    assert(u32::MAX == 4_294_967_295);
}

proof fn lemma_decimal_is_read(n: nat, max: nat)
    ensures
        whole_number(decimal(n), max) == if n <= max {
            Ok::<nat, IntError>(n)
        } else {
            Err::<nat, IntError>(IntError::TooLarge)
        },
{
    lemma_numbers_are_read(false, 0, n, max);
    assert(Seq::new(0, |i: int| '0') + decimal(n) =~= decimal(n));
}

/// The texts and URLs of a configuration are each those of their own variable,
/// as handed in or read.
pub proof fn lemma_each_text_has_its_variable(
    vars: VarMap,
    camera: UrlView,
    webhook: UrlView,
    probe: UrlView,
    bind: Seq<char>,
)
    requires
        setting_fault(vars, Ok(bind)) is None,
    ensures
        ({
            let c = settings(vars, camera, webhook, probe, bind);
            &&& c.hik_url == camera
            &&& c.webhook_url == webhook
            &&& c.probe_url == probe
            &&& c.health_bind == bind
            &&& vars.contains_key("HIKVISION_USER"@) && c.hik_user == trimmed(
                vars["HIKVISION_USER"@],
            )
            &&& vars.contains_key("HIKVISION_PASS"@) && c.hik_pass == trimmed(
                vars["HIKVISION_PASS"@],
            )
            &&& vars.contains_key("PROTECT_API_KEY"@) && c.api_key == trimmed(
                vars["PROTECT_API_KEY"@],
            )
            &&& vars.contains_key("FIRE_EVENT_TYPES"@) && trimmed(
                vars["FIRE_EVENT_TYPES"@],
            ).len() > 0 ==> c.fire_types == listed(trimmed(vars["FIRE_EVENT_TYPES"@]))
            &&& !(vars.contains_key("FIRE_EVENT_TYPES"@) && trimmed(
                vars["FIRE_EVENT_TYPES"@],
            ).len() > 0) ==> c.fire_types == seq![
                "firedetection"@,
                "fire_detection"@,
                "firealarm"@,
            ]
        }),
{
}

/// A configuration that loads has the three URLs that its variables give.
pub proof fn lemma_loaded_urls(vars: VarMap, bind: Seq<char>)
    requires
        first_fault(vars, Ok(bind)) is None,
    ensures
        camera_url(vars) == Ok::<UrlView, Fault>(loaded(vars, bind).hik_url),
        webhook_url(vars) == Ok::<UrlView, Fault>(loaded(vars, bind).webhook_url),
        probe_url(vars) == Ok::<UrlView, Fault>(loaded(vars, bind).probe_url),
        loaded(vars, bind) == settings(
            vars,
            camera_url(vars)->Ok_0,
            webhook_url(vars)->Ok_0,
            probe_url(vars)->Ok_0,
            bind,
        ),
{
}

/// What is wrong with a setting, where something is.
pub open spec fn fault_of<T>(read: Result<T, Fault>) -> Option<Fault> {
    match read {
        Ok(_) => None,
        Err(f) => Some(f),
    }
}

/// The settings are fine exactly where every check is, and otherwise the error
/// is that of the first check that is not.
pub proof fn lemma_first_wrong_setting_is_told(
    vars: VarMap,
    bind: Result<Seq<char>, Seq<char>>,
    checks: Seq<Option<Fault>>,
    i: int,
)
    requires
        // the checks, in the order in which an operator is told of them
        checks == seq![
            fault_of(api_key(vars)),
            fault_of(fire_types(vars)),
            fault_of(webhook_attempts(vars)),
            fault_of(seconds(vars, "RECONNECT_INITIAL_SECONDS"@, 1)),
            fault_of(seconds(vars, "RECONNECT_MAX_SECONDS"@, 30)),
            if 1_000_000_000 <= seconds(vars, "RECONNECT_INITIAL_SECONDS"@, 1)->Ok_0 <= seconds(
                vars,
                "RECONNECT_MAX_SECONDS"@,
                30,
            )->Ok_0 {
                None
            } else {
                Some(plain("RECONNECT_MAX_SECONDS must be >= RECONNECT_INITIAL_SECONDS >= 1"@))
            },
            if seconds(vars, "RECONNECT_MAX_SECONDS"@, 30)->Ok_0 <= 3_600_000_000_000 {
                None
            } else {
                Some(plain("RECONNECT_MAX_SECONDS must be at most 3600"@))
            },
            fault_of(required(vars, "HIKVISION_USER"@)),
            fault_of(required(vars, "HIKVISION_PASS"@)),
            match bind {
                Ok(_) => None,
                Err(e) => Some(because("HEALTH_BIND must be an address:port pair"@, e)),
            },
            fault_of(nonzero_seconds(vars, "STREAM_IDLE_TIMEOUT_SECONDS"@, 90)),
            fault_of(nonzero_seconds(vars, "FIRE_COOLDOWN_SECONDS"@, 60)),
            fault_of(seconds(vars, "FIRE_REALERT_SECONDS"@, 60)),
            fault_of(nonzero_seconds(vars, "FIRE_ACTIVE_TTL_SECONDS"@, 300)),
            fault_of(nonzero_seconds(vars, "WEBHOOK_TIMEOUT_SECONDS"@, 5)),
            fault_of(seconds(vars, "PROTECT_PROBE_SECONDS"@, 60)),
        ],
        0 <= i < 16,
        forall|j: int| 0 <= j < i ==> #[trigger] checks[j] is None,
    ensures
        checks[i] is Some ==> setting_fault(vars, bind) == checks[i],
        i == 15 && checks[15] is None ==> setting_fault(vars, bind) is None,
{
    assert(i > 0 ==> checks[0] is None);
    assert(i > 1 ==> checks[1] is None);
    assert(i > 2 ==> checks[2] is None);
    assert(i > 3 ==> checks[3] is None);
    assert(i > 4 ==> checks[4] is None);
    assert(i > 5 ==> checks[5] is None);
    assert(i > 6 ==> checks[6] is None);
    assert(i > 7 ==> checks[7] is None);
    assert(i > 8 ==> checks[8] is None);
    assert(i > 9 ==> checks[9] is None);
    assert(i > 10 ==> checks[10] is None);
    assert(i > 11 ==> checks[11] is None);
    assert(i > 12 ==> checks[12] is None);
    assert(i > 13 ==> checks[13] is None);
    assert(i > 14 ==> checks[14] is None);
}

/// Which settings are accepted, by what the variables hold: a key that a header
/// can carry, a list of event types that lists one, at least one attempt, the
/// reconnect delays between one second and an hour and in order, a user and a
/// password, an address, and no zero but for the reminder and the probe.
pub proof fn lemma_accepted_settings(vars: VarMap, bind: Result<Seq<char>, Seq<char>>)
    ensures
        ({
            let text = |name: Seq<char>| vars.contains_key(name) && trimmed(vars[name]).len() > 0;
            let number = |name: Seq<char>, default: nat|
                if vars.contains_key(name) {
                    whole_number(trimmed(vars[name]), 18_446_744_073_709_551_615)
                } else {
                    Ok::<nat, IntError>(default)
                };
            let positive = |name: Seq<char>| number(name, 1) is Ok && number(name, 1)->Ok_0 > 0;
            let key = trimmed(vars["PROTECT_API_KEY"@]);
            setting_fault(vars, bind) is None <==> {
                &&& text("PROTECT_API_KEY"@)
                &&& forall|i: int|
                    0 <= i < key.len() ==> (32 <= (#[trigger] key[i] as int) && (key[i] as int)
                        != 127) || (key[i] as int) == 9
                &&& text("FIRE_EVENT_TYPES"@) ==> listed(trimmed(vars["FIRE_EVENT_TYPES"@])).len()
                    > 0
                &&& vars.contains_key("WEBHOOK_ATTEMPTS"@) ==> (whole_number(
                    trimmed(vars["WEBHOOK_ATTEMPTS"@]),
                    4_294_967_295,
                ) matches Ok(n) && n >= 1)
                &&& number("RECONNECT_INITIAL_SECONDS"@, 1) is Ok
                &&& number("RECONNECT_MAX_SECONDS"@, 30) is Ok
                &&& 1 <= number("RECONNECT_INITIAL_SECONDS"@, 1)->Ok_0 <= number(
                    "RECONNECT_MAX_SECONDS"@,
                    30,
                )->Ok_0 <= 3600
                &&& text("HIKVISION_USER"@)
                &&& text("HIKVISION_PASS"@)
                &&& bind is Ok
                &&& positive("STREAM_IDLE_TIMEOUT_SECONDS"@)
                &&& positive("FIRE_COOLDOWN_SECONDS"@)
                &&& number("FIRE_REALERT_SECONDS"@, 1) is Ok
                &&& positive("FIRE_ACTIVE_TTL_SECONDS"@)
                &&& positive("WEBHOOK_TIMEOUT_SECONDS"@)
                &&& number("PROTECT_PROBE_SECONDS"@, 1) is Ok
            }
        }),
{
}

/// What is said of a key, a list and a number of attempts that are not
/// accepted.
pub proof fn lemma_refused_settings(vars: VarMap, i: int)
    ensures
        ({
            let name = "PROTECT_API_KEY"@;
            let key = trimmed(vars[name]);
            &&& !(vars.contains_key(name) && key.len() > 0) ==> api_key(vars) == Err::<
                Seq<char>,
                Fault,
            >(plain("PROTECT_API_KEY"@ + " is required and must not be empty"@))
            &&& vars.contains_key(name) && 0 <= i < key.len() && (((key[i] as int) < 32 && (
            key[i] as int) != 9) || (key[i] as int) == 127) ==> api_key(vars) == Err::<
                Seq<char>,
                Fault,
            >(
                because(
                    "PROTECT_API_KEY contains characters not permitted in an HTTP header"@,
                    "failed to parse header value"@,
                ),
            )
            &&& api_key(vars) matches Ok(k) ==> k == key
        }),
        ({
            let name = "FIRE_EVENT_TYPES"@;
            fire_types(vars) matches Err(f) ==> {
                &&& vars.contains_key(name)
                &&& trimmed(vars[name]).len() > 0
                &&& listed(trimmed(vars[name])).len() == 0
                &&& f == plain("FIRE_EVENT_TYPES must list at least one event type"@)
            }
        }),
        ({
            let name = "WEBHOOK_ATTEMPTS"@;
            webhook_attempts(vars) matches Err(f) ==> {
                &&& vars.contains_key(name)
                &&& match whole_number(trimmed(vars[name]), 4_294_967_295) {
                    Ok(n) => n == 0 && f == plain("WEBHOOK_ATTEMPTS must be at least 1"@),
                    Err(e) => f == because(
                        "WEBHOOK_ATTEMPTS must be a whole number"@,
                        int_error(e),
                    ),
                }
            }
        }),
{
    assert(u32::MAX == 4_294_967_295);
}

/// An error has its text and the cause it was given, if any.
pub proof fn lemma_faults_say_what_they_were_given(context: Seq<char>, cause: Seq<char>)
    ensures
        plain(context).context == context && plain(context).cause is None,
        because(context, cause).context == context && because(context, cause).cause == Some(cause),
        not_private(context).context == context
            + " must use https (plain http is allowed only toward loopback, for testing)"@,
        not_private(context).cause is None,
{
}

/// The camera's URL: the scheme, `http` where none is given, and no other than
/// `http` and `https`; the host, bare; and the path of the alert stream.
pub proof fn lemma_camera_url_parts(vars: VarMap, i: int)
    ensures
        ({
            let scheme = if vars.contains_key("HIKVISION_SCHEME"@) {
                trimmed(vars["HIKVISION_SCHEME"@])
            } else {
                "http"@
            };
            let host = trimmed(vars["HIKVISION_HOST"@]);
            let given = vars.contains_key("HIKVISION_HOST"@) && host.len() > 0;
            let known = scheme == "http"@ || scheme == "https"@;
            let text = scheme + "://"@ + host + "/ISAPI/Event/notification/alertStream"@;
            let bare = "HIKVISION_HOST must be a bare host or host:port (no path, userinfo, or query)"@;
            &&& !known ==> camera_url(vars) == Err::<UrlView, Fault>(
                plain("HIKVISION_SCHEME must be http or https"@),
            )
            &&& known && !given ==> camera_url(vars) == Err::<UrlView, Fault>(
                plain("HIKVISION_HOST"@ + " is required and must not be empty"@),
            )
            &&& known && given && 0 <= i < host.len() && (host[i] == '/' || host[i] == '@'
                || host[i] == '?' || host[i] == '#' || host[i] == '\\' || is_space(host[i]))
                ==> camera_url(vars) == Err::<UrlView, Fault>(plain(bare))
            &&& known && given && (forall|k: int|
                0 <= k < host.len() ==> #[trigger] host[k] != '/' && host[k] != '@' && host[k]
                    != '?' && host[k] != '#' && host[k] != '\\' && !is_space(host[k])) ==> camera_url(
                vars,
            ) == match url_parse(text) {
                Ok(url) => Ok::<UrlView, Fault>(url),
                Err(e) => Err::<UrlView, Fault>(because("HIKVISION_HOST is not a valid host"@, e)),
            }
        }),
{
    let host = trimmed(vars["HIKVISION_HOST"@]);
    if 0 <= i < host.len() && (host[i] == '/' || host[i] == '@' || host[i] == '?' || host[i] == '#'
        || host[i] == '\\' || is_space(host[i])) {
        assert(!is_bare_host(host));
    }
}

/// The webhook's URL: the one given in full; or else the path of the Alarm
/// Manager's webhooks with the ID, on the server of the base URL.
pub proof fn lemma_webhook_url_parts(vars: VarMap, i: int)
    ensures
        ({
            let full = trimmed(vars["PROTECT_WEBHOOK_URL"@]);
            let base = trimmed(vars["PROTECT_BASE_URL"@]);
            let id = trimmed(vars["PROTECT_WEBHOOK_ID"@]);
            let has_full = vars.contains_key("PROTECT_WEBHOOK_URL"@) && full.len() > 0;
            let has_base = vars.contains_key("PROTECT_BASE_URL"@) && base.len() > 0;
            let has_id = vars.contains_key("PROTECT_WEBHOOK_ID"@) && id.len() > 0;
            let path = "/proxy/protect/integration/v1/alarm-manager/webhook/"@ + id;
            let plain_char = |c: char|
                'a' <= c <= 'z' || 'A' <= c <= 'Z' || '0' <= c <= '9' || c == '-' || c == '_';
            let alphabet = "PROTECT_WEBHOOK_ID may contain only letters, digits, '-' and '_' (set PROTECT_WEBHOOK_URL for a full custom URL)"@;
            &&& has_full ==> webhook_url(vars) == match url_parse(full) {
                Ok(url) => Ok::<UrlView, Fault>(url),
                Err(e) => Err::<UrlView, Fault>(
                    because("PROTECT_WEBHOOK_URL is not a valid URL"@, e),
                ),
            }
            &&& !has_full && !has_base ==> webhook_url(vars) == Err::<UrlView, Fault>(
                plain("PROTECT_BASE_URL"@ + " is required and must not be empty"@),
            )
            &&& !has_full && has_base ==> (url_parse(base) matches Err(e) ==> webhook_url(vars)
                == Err::<UrlView, Fault>(because("PROTECT_BASE_URL is not a valid URL"@, e)))
            &&& !has_full && has_base && url_parse(base) is Ok && !has_id ==> webhook_url(vars)
                == Err::<UrlView, Fault>(
                plain("PROTECT_WEBHOOK_ID"@ + " is required and must not be empty"@),
            )
            &&& !has_full && has_base && url_parse(base) is Ok && has_id && 0 <= i < id.len()
                && !plain_char(id[i]) ==> webhook_url(vars) == Err::<UrlView, Fault>(
                plain(alphabet),
            )
            &&& !has_full && has_base && url_parse(base) is Ok && has_id && (forall|k: int|
                0 <= k < id.len() ==> plain_char(#[trigger] id[k])) ==> webhook_url(vars)
                == match url_join(base, path) {
                Ok(url) => Ok::<UrlView, Fault>(url),
                Err(e) => Err::<UrlView, Fault>(
                    because("could not build webhook URL from PROTECT_BASE_URL"@, e),
                ),
            }
        }),
{
    let id = trimmed(vars["PROTECT_WEBHOOK_ID"@]);
    if 0 <= i < id.len() && !is_plain_char(id[i]) {
        assert(!is_webhook_id(id));
    }
    if (forall|k: int| 0 <= k < id.len() ==> is_plain_char(#[trigger] id[k])) {
        assert(is_webhook_id(id));
    }
}

/// The URL that is probed: the base URL where there is one, and else the root
/// of the server that the webhook's URL names.
pub proof fn lemma_probe_url_parts(vars: VarMap)
    ensures
        ({
            let full = trimmed(vars["PROTECT_WEBHOOK_URL"@]);
            let base = trimmed(vars["PROTECT_BASE_URL"@]);
            let has_full = vars.contains_key("PROTECT_WEBHOOK_URL"@) && full.len() > 0;
            let has_base = vars.contains_key("PROTECT_BASE_URL"@) && base.len() > 0;
            &&& has_base ==> probe_url(vars) == match url_parse(base) {
                Ok(url) => Ok::<UrlView, Fault>(url),
                Err(e) => Err::<UrlView, Fault>(because("PROTECT_BASE_URL is not a valid URL"@, e)),
            }
            &&& !has_base && has_full ==> (url_join(full, "/"@) matches Ok(url) ==> probe_url(vars)
                == Ok::<UrlView, Fault>(url))
        }),
{
}

/// The URLs are accepted exactly where the three can be read and the two toward
/// Protect are private, and otherwise the error is that of the first that is
/// not, in this order.
pub proof fn lemma_first_wrong_url_is_told(vars: VarMap, bind: Result<Seq<char>, Seq<char>>)
    ensures
        ({
            let (camera, webhook, probe) = (camera_url(vars), webhook_url(vars), probe_url(vars));
            let fault = first_fault(vars, bind);
            let told = " must use https (plain http is allowed only toward loopback, for testing)"@;
            &&& camera is Err ==> fault == Some(camera->Err_0)
            &&& camera is Ok && webhook is Err ==> fault == Some(webhook->Err_0)
            &&& camera is Ok && webhook is Ok && !is_private(webhook->Ok_0) ==> fault == Some(
                plain("Protect webhook URL"@ + told),
            )
            &&& camera is Ok && webhook is Ok && is_private(webhook->Ok_0) && probe is Err ==> fault
                == Some(probe->Err_0)
            &&& camera is Ok && webhook is Ok && is_private(webhook->Ok_0) && probe is Ok
                && !is_private(probe->Ok_0) ==> fault == Some(plain("Protect probe URL"@ + told))
            &&& camera is Ok && webhook is Ok && is_private(webhook->Ok_0) && probe is Ok
                && is_private(probe->Ok_0) ==> fault == setting_fault(vars, bind)
        }),
{
}

/// A list is read field by field: one that is empty once trimmed is passed
/// over, and any other is added at the end, trimmed and in lower case.
pub proof fn lemma_list_field_by_field(parts: Seq<Seq<char>>, last: Seq<char>, csv: Seq<char>)
    ensures
        kept(Seq::empty()) == Seq::<Seq<char>>::empty(),
        lowered(trimmed(last)).len() == 0 ==> kept(parts.push(last)) == kept(parts),
        lowered(trimmed(last)).len() > 0 ==> kept(parts.push(last)) == kept(parts).push(
            lowered(trimmed(last)),
        ),
        listed(csv) == kept(fields(csv)),
        normalised(last) == lowered(trimmed(last)),
{
    assert(parts.push(last).drop_last() =~= parts);
}

/// A list prints its texts in order, with a comma and a space between two.
pub proof fn lemma_list_prints_in_order(types: Seq<Seq<char>>, last: Seq<char>)
    ensures
        list_debug(Seq::empty()) == "["@,
        types.len() == 0 ==> list_debug(types.push(last)) == "["@ + str_debug(last),
        types.len() > 0 ==> list_debug(types.push(last)) == list_debug(types) + ", "@ + str_debug(
            last,
        ),
{
    assert(types.push(last).drop_last() =~= types);
    let all = types.push(last);
    if types.len() == 0 {
        reveal_strlit("");
        assert(types =~= Seq::empty());
        assert(list_debug(types) == "["@);
        assert(all.len() == 1 && all.last() == last);
        assert(list_debug(all) == list_debug(all.drop_last()) + ""@ + str_debug(last));
        assert(list_debug(all) == "["@ + ""@ + str_debug(last));
        assert("["@ + ""@ =~= "["@);
    }
}

} // verus!
