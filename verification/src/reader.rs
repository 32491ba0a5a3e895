//! Archive locators and the backends that serve them.

use crate::fetch::{FetchAction, FetchEvent, FetchState};
use crate::path::{file_name, file_name_of};
use crate::trusted::{file_path_url, file_url, parse_url, url_parse};
use vstd::prelude::*;
use vstd::string::*;

verus! {

/// The two kinds of archive locator: remote over HTTP(S), or a local file.
#[derive(Debug, Clone, Copy, PartialEq, Eq, Hash, Structural)]
pub enum WheelUrlType {
    Httpx,
    File,
}

/// The components of a parsed URL that the library reads, as plain strings.
#[derive(Debug, Clone, PartialEq, Eq)]
pub struct UrlParts {
    /// The whole URL in its serialized form.
    pub href: String,
    /// The scheme, without the colon.
    pub scheme: String,
    /// The host, where the URL has one.
    pub host: Option<String>,
    /// The path component.
    pub path: String,
}

/// The mathematical value of a [`UrlParts`].
pub ghost struct UrlPartsView {
    pub href: Seq<char>,
    pub scheme: Seq<char>,
    pub host: Option<Seq<char>>,
    pub path: Seq<char>,
}

impl View for UrlParts {
    type V = UrlPartsView;

    open spec fn view(&self) -> UrlPartsView {
        UrlPartsView {
            href: self.href@,
            scheme: self.scheme@,
            host: match self.host {
                Some(h) => Some(h@),
                None => None,
            },
            path: self.path@,
        }
    }
}

/// Why a string is no locator.
#[derive(Debug, Clone, PartialEq, Eq)]
pub enum ParseError {
    /// The string is a URL whose scheme is none of `http`, `https` and
    /// `file`. Holds the URL.
    UnsupportedScheme(String),
    /// The string is a remote URL that names no host. Holds the URL.
    MissingHost(String),
    /// The string is neither a URL nor a path that a `file` URL can be made
    /// of. Holds the string.
    InvalidPath(String),
}

/// The mathematical value of a [`ParseError`].
pub ghost enum ParseErrorView {
    UnsupportedScheme(Seq<char>),
    MissingHost(Seq<char>),
    InvalidPath(Seq<char>),
}

impl View for ParseError {
    type V = ParseErrorView;

    open spec fn view(&self) -> ParseErrorView {
        match self {
            ParseError::UnsupportedScheme(url) => ParseErrorView::UnsupportedScheme(url@),
            ParseError::MissingHost(url) => ParseErrorView::MissingHost(url@),
            ParseError::InvalidPath(text) => ParseErrorView::InvalidPath(text@),
        }
    }
}

impl ParseError {
    /// The error as a line for the user.
    pub fn message(&self) -> (line: String)
        ensures
            line@ == match self@ {
                ParseErrorView::UnsupportedScheme(url) => "unknown scheme: "@ + url,
                ParseErrorView::MissingHost(url) => "missing host: "@ + url,
                ParseErrorView::InvalidPath(text) => "invalid path: "@ + text,
            },
    {
        match self {
            ParseError::UnsupportedScheme(url) => String::from_str("unknown scheme: ").concat(
                url.as_str(),
            ),
            ParseError::MissingHost(url) => String::from_str("missing host: ").concat(
                url.as_str(),
            ),
            ParseError::InvalidPath(text) => String::from_str("invalid path: ").concat(
                text.as_str(),
            ),
        }
    }
}

/// What a backend is built from.
#[derive(Debug, Clone, PartialEq, Eq)]
pub enum Service {
    /// An HTTP client rooted at this endpoint.
    Httpx(String),
    /// A file system rooted at this directory.
    File(String),
}

/// The mathematical value of a [`Service`].
pub ghost enum ServiceView {
    Httpx(Seq<char>),
    File(Seq<char>),
}

impl View for Service {
    type V = ServiceView;

    open spec fn view(&self) -> ServiceView {
        match self {
            Service::Httpx(endpoint) => ServiceView::Httpx(endpoint@),
            Service::File(root) => ServiceView::File(root@),
        }
    }
}

/// The mathematical value of an [`Origin`].
pub type OriginKey = (WheelUrlType, Seq<char>);

/// What tells backends apart: the kind of locator and the endpoint.
#[derive(Debug, Clone, PartialEq, Eq)]
pub struct Origin {
    pub kind: WheelUrlType,
    pub endpoint: String,
}

impl View for Origin {
    type V = OriginKey;

    open spec fn view(&self) -> OriginKey {
        (self.kind, self.endpoint@)
    }
}

impl Origin {
    /// Whether two origins are the same.
    pub fn same_as(&self, other: &Origin) -> (same: bool)
        ensures
            same == (self@ == other@),
    {
        self.kind == other.kind && self.endpoint == other.endpoint
    }
}

/// The kind of locator that a URL scheme stands for, if any.
pub open spec fn scheme_kind(scheme: Seq<char>) -> Option<WheelUrlType> {
    if scheme == "https"@ || scheme == "http"@ {
        Some(WheelUrlType::Httpx)
    } else if scheme == "file"@ {
        Some(WheelUrlType::File)
    } else {
        None
    }
}

/// The kind of locator that a URL scheme stands for, if any.
pub fn kind_of_scheme(scheme: &String) -> (kind: Option<WheelUrlType>)
    ensures
        kind == scheme_kind(scheme@),
{
    if *scheme == String::from_str("https") || *scheme == String::from_str("http") {
        Some(WheelUrlType::Httpx)
    } else if *scheme == String::from_str("file") {
        Some(WheelUrlType::File)
    } else {
        None
    }
}

/// A locator: a remote URL, or a local file. A local file given by a `file`
/// URL has the path of the URL; one given by its path has that path as it is
/// written.
#[derive(Debug, PartialEq, Eq)]
pub struct WheelUrl {
    url_type: WheelUrlType,
    url: UrlParts,
}

/// The mathematical value of a [`WheelUrl`].
pub ghost struct WheelUrlView {
    pub url_type: WheelUrlType,
    pub url: UrlPartsView,
}

impl WheelUrlView {
    /// The scheme is one of `http`, `https` and `file` and decides the kind,
    /// and a remote locator names a host.
    pub open spec fn wf(self) -> bool {
        &&& scheme_kind(self.url.scheme) == Some(self.url_type)
        &&& self.url_type == WheelUrlType::Httpx ==> self.url.host is Some
    }

    /// The locator in writing: the URL of a remote archive, the path of a
    /// local one.
    pub open spec fn display(self) -> Seq<char> {
        match self.url_type {
            WheelUrlType::Httpx => self.url.href,
            WheelUrlType::File => self.url.path,
        }
    }

    /// The path of the archive within its backend.
    pub open spec fn path(self) -> Seq<char> {
        self.url.path
    }

    /// The file name of the archive, where its path ends in one.
    pub open spec fn file_name(self) -> Option<Seq<char>> {
        file_name_of(self.url.path)
    }

    /// The name under which the archive's metadata is written out: its file
    /// name or, for want of one, the whole locator.
    pub open spec fn output_key(self) -> Seq<char> {
        match self.file_name() {
            Some(name) => name,
            None => self.display(),
        }
    }

    /// Where the backend is rooted: scheme and host of a remote archive, the
    /// root directory for a local one.
    pub open spec fn endpoint(self) -> Seq<char> {
        match self.url_type {
            WheelUrlType::Httpx => self.url.scheme + "://"@ + self.url.host->0,
            WheelUrlType::File => "/"@,
        }
    }

    /// What the backend for this locator is built from.
    pub open spec fn service(self) -> ServiceView {
        match self.url_type {
            WheelUrlType::Httpx => ServiceView::Httpx(self.endpoint()),
            WheelUrlType::File => ServiceView::File(self.endpoint()),
        }
    }

    /// The origin that the locator shares with all others served by the same
    /// backend.
    pub open spec fn origin(self) -> OriginKey {
        (self.url_type, self.endpoint())
    }
}

/// The locator that a parsed URL stands for.
pub open spec fn locator_of_url(url: UrlPartsView) -> Result<WheelUrlView, ParseErrorView> {
    match scheme_kind(url.scheme) {
        None => Err(ParseErrorView::UnsupportedScheme(url.href)),
        Some(WheelUrlType::Httpx) => if url.host is Some {
            Ok(WheelUrlView { url_type: WheelUrlType::Httpx, url })
        } else {
            Err(ParseErrorView::MissingHost(url.href))
        },
        Some(WheelUrlType::File) => Ok(WheelUrlView { url_type: WheelUrlType::File, url }),
    }
}

/// The locator for the local file at `path`, given the `file` URL made of
/// the path. The locator keeps the path as it is written; of the URL it
/// keeps the rest.
pub open spec fn locator_of_path(path: Seq<char>, url: UrlPartsView) -> Result<
    WheelUrlView,
    ParseErrorView,
> {
    if scheme_kind(url.scheme) == Some(WheelUrlType::File) {
        Ok(
            WheelUrlView {
                url_type: WheelUrlType::File,
                url: UrlPartsView { href: url.href, scheme: url.scheme, host: url.host, path },
            },
        )
    } else {
        Err(ParseErrorView::InvalidPath(path))
    }
}

/// The locator that a string stands for: the URL it parses to or else, taken
/// as a path, the local file at that path, where a `file` URL can be made of
/// it.
pub open spec fn locator_of(text: Seq<char>) -> Result<WheelUrlView, ParseErrorView> {
    match url_parse(text) {
        Some(url) => locator_of_url(url),
        None => match file_path_url(text) {
            Some(url) => locator_of_path(text, url),
            None => Err(ParseErrorView::InvalidPath(text)),
        },
    }
}

/// The display name of a locator is the file name that its path ends in,
/// whatever the kind of the locator: locators with one path have one name.
pub proof fn lemma_display_name_ignores_kind(one: WheelUrlView, other: WheelUrlView)
    requires
        one.path() == other.path(),
    ensures
        one.file_name() == file_name_of(one.path()),
        one.file_name() == other.file_name(),
{
}

/// A string that parses as a URL stands for a locator that holds that URL,
/// and the display name of the locator is the file name that the path of
/// the URL ends in.
pub proof fn lemma_url_display_name(text: Seq<char>)
    requires
        url_parse(text) is Some,
        locator_of(text) is Ok,
    ensures
        ({
            let locator = locator_of(text)->Ok_0;
            &&& locator.wf()
            &&& locator.url == url_parse(text)->0
            &&& locator.file_name() == file_name_of(url_parse(text)->0.path)
        }),
{
}

/// A string that is no URL and is taken as a path stands for a local
/// locator with that very path: the locator is written as the string is, and
/// its display name is the file name that the string ends in.
pub proof fn lemma_path_display_name(text: Seq<char>)
    requires
        url_parse(text) is None,
        locator_of(text) is Ok,
    ensures
        ({
            let locator = locator_of(text)->Ok_0;
            &&& locator.wf()
            &&& locator.url_type == WheelUrlType::File
            &&& locator.path() == text
            &&& locator.display() == text
            &&& locator.file_name() == file_name_of(text)
        }),
{
}

/// The mathematical value of the outcome of parsing.
pub open spec fn parsed_view(outcome: Result<WheelUrl, ParseError>) -> Result<
    WheelUrlView,
    ParseErrorView,
> {
    match outcome {
        Ok(locator) => Ok(locator@),
        Err(error) => Err(error@),
    }
}

impl View for WheelUrl {
    type V = WheelUrlView;

    closed spec fn view(&self) -> WheelUrlView {
        WheelUrlView { url_type: self.url_type, url: self.url@ }
    }
}

impl Clone for WheelUrl {
    fn clone(&self) -> (copy: Self)
        ensures
            copy@ == self@,
    {
        proof {
            use_type_invariant(self);
        }
        let host = match &self.url.host {
            Some(host) => Some(host.clone()),
            None => None,
        };
        WheelUrl {
            url_type: self.url_type,
            url: UrlParts {
                href: self.url.href.clone(),
                scheme: self.url.scheme.clone(),
                host,
                path: self.url.path.clone(),
            },
        }
    }
}

impl WheelUrl {
    #[verifier::type_invariant]
    spec fn well_formed(&self) -> bool {
        self@.wf()
    }

    /// The locator for a parsed URL. The scheme decides the kind; a scheme
    /// other than `http`, `https` and `file` is refused, and so is a remote
    /// URL without a host.
    pub fn try_from(url: UrlParts) -> (outcome: Result<WheelUrl, ParseError>)
        ensures
            parsed_view(outcome) == locator_of_url(url@),
    {
        match kind_of_scheme(&url.scheme) {
            Some(WheelUrlType::Httpx) => {
                if url.host.is_some() {
                    Ok(WheelUrl { url_type: WheelUrlType::Httpx, url })
                } else {
                    Err(ParseError::MissingHost(url.href))
                }
            },
            Some(WheelUrlType::File) => Ok(WheelUrl { url_type: WheelUrlType::File, url }),
            None => Err(ParseError::UnsupportedScheme(url.href)),
        }
    }

    /// The locator for the local file at `path`, given the `file` URL made
    /// of the path. The locator keeps the path as it is written. A URL of
    /// another scheme is refused.
    pub fn local(path: &str, url: UrlParts) -> (outcome: Result<WheelUrl, ParseError>)
        ensures
            parsed_view(outcome) == locator_of_path(path@, url@),
    {
        match kind_of_scheme(&url.scheme) {
            Some(WheelUrlType::File) => {
                let url = UrlParts {
                    href: url.href,
                    scheme: url.scheme,
                    host: url.host,
                    path: String::from_str(path),
                };
                Ok(WheelUrl { url_type: WheelUrlType::File, url })
            },
            _ => Err(ParseError::InvalidPath(String::from_str(path))),
        }
    }

    /// Parses a locator. A string that parses as a URL is taken as one; any
    /// other string is taken as the path of a local file and kept as it is
    /// written, if a `file` URL can be made of it.
    pub fn from_str(text: &str) -> (outcome: Result<WheelUrl, ParseError>)
        ensures
            parsed_view(outcome) == locator_of(text@),
    {
        match parse_url(text) {
            Some(url) => WheelUrl::try_from(url),
            None => match file_url(text) {
                Some(url) => WheelUrl::local(text, url),
                None => Err(ParseError::InvalidPath(String::from_str(text))),
            },
        }
    }

    /// The kind of the locator.
    pub fn url_type(&self) -> (kind: WheelUrlType)
        ensures
            kind == self@.url_type,
    {
        self.url_type
    }

    /// The locator in writing: the URL of a remote archive, the path of a
    /// local one.
    pub fn to_string(&self) -> (text: String)
        ensures
            text@ == self@.display(),
    {
        match self.url_type {
            WheelUrlType::Httpx => self.url.href.clone(),
            WheelUrlType::File => self.url.path.clone(),
        }
    }

    /// The path of the archive within its backend.
    pub fn path(&self) -> (path: &str)
        ensures
            path@ == self@.path(),
    {
        self.url.path.as_str()
    }

    /// The file name of the archive: the last segment of its path, whatever
    /// the kind of the locator. `None` where the path ends in no file name.
    pub fn file_name(&self) -> (name: Option<String>)
        ensures
            match name {
                Some(text) => self@.file_name() == Some(text@),
                None => self@.file_name() is None,
            },
    {
        file_name(self.url.path.as_str())
    }

    /// The name under which the archive's metadata is written out.
    pub fn output_key(&self) -> (key: String)
        ensures
            key@ == self@.output_key(),
    {
        match self.file_name() {
            Some(name) => name,
            None => self.to_string(),
        }
    }

    /// Where the backend for this locator is rooted.
    pub fn endpoint(&self) -> (endpoint: String)
        ensures
            endpoint@ == self@.endpoint(),
    {
        proof {
            use_type_invariant(self);
        }
        match self.url_type {
            WheelUrlType::Httpx => {
                let host = match &self.url.host {
                    Some(host) => host.as_str(),
                    None => "",
                };
                self.url.scheme.clone().concat("://").concat(host)
            },
            WheelUrlType::File => String::from_str("/"),
        }
    }

    /// What the backend for this locator is built from.
    pub fn service(&self) -> (service: Service)
        ensures
            service@ == self@.service(),
    {
        match self.url_type {
            WheelUrlType::Httpx => Service::Httpx(self.endpoint()),
            WheelUrlType::File => Service::File(self.endpoint()),
        }
    }

    /// The origin of the locator.
    pub fn origin(&self) -> (origin: Origin)
        ensures
            origin@ == self@.origin(),
    {
        Origin { kind: self.url_type, endpoint: self.endpoint() }
    }
}

/// The origins for which a backend has been built, after one more locator
/// with origin `key` has been resolved: a backend is built for `key` only
/// where none was built for it before.
pub open spec fn resolved(built: Seq<OriginKey>, key: OriginKey) -> Seq<OriginKey> {
    if built.contains(key) {
        built
    } else {
        built.push(key)
    }
}

/// The origins for which a backend has been built after the locators with
/// origins `keys` have been resolved in turn, none of them failing, by a
/// cache that had built for the origins `built` before.
pub open spec fn resolved_all(built: Seq<OriginKey>, keys: Seq<OriginKey>) -> Seq<OriginKey>
    decreases keys.len(),
{
    if keys.len() == 0 {
        built
    } else {
        resolved(resolved_all(built, keys.drop_last()), keys.last())
    }
}

/// However many locators are resolved, and however many of them share an
/// origin, the backends that were there stay, one backend is built for each
/// origin that occurs among the locators and had none, and none for any
/// other.
pub proof fn lemma_one_backend_per_origin(built: Seq<OriginKey>, keys: Seq<OriginKey>)
    requires
        built.no_duplicates(),
    ensures
        resolved_all(built, keys).no_duplicates(),
        built.is_prefix_of(resolved_all(built, keys)),
        forall|key: OriginKey|
            resolved_all(built, keys).contains(key) <==> built.contains(key) || keys.contains(key),
    decreases keys.len(),
{
    if keys.len() > 0 {
        let front = keys.drop_last();
        let before = resolved_all(built, front);
        let after = resolved_all(built, keys);
        lemma_one_backend_per_origin(built, front);
        assert forall|key: OriginKey|
            after.contains(key) <==> built.contains(key) || keys.contains(key) by {
            if built.contains(key) {
                assert(before.contains(key));
                let place = before.index_of(key);
                assert(after[place] == key);
            }
            if keys.contains(key) {
                let at = choose|i: int| 0 <= i < keys.len() && keys[i] == key;
                if at < front.len() {
                    assert(front[at] == key);
                    assert(front.contains(key));
                    let place = before.index_of(key);
                    assert(after[place] == key);
                } else if !before.contains(key) {
                    assert(after[before.len() as int] == key);
                } else {
                    let place = before.index_of(key);
                    assert(after[place] == key);
                }
            }
            if after.contains(key) {
                let place = after.index_of(key);
                if place < before.len() {
                    assert(before[place] == key);
                    assert(before.contains(key));
                    if !built.contains(key) {
                        assert(front.contains(key));
                        let at = front.index_of(key);
                        assert(keys[at] == key);
                    }
                } else {
                    assert(keys[keys.len() - 1] == key);
                }
            }
        }
    }
}

/// Locators that share one origin have one backend between them, however
/// many they are: where the cache had none for that origin, one is built and
/// the cache has one backend more; where it had one, none is built.
pub proof fn lemma_shared_origin_one_backend(
    built: Seq<OriginKey>,
    keys: Seq<OriginKey>,
    key: OriginKey,
)
    requires
        keys.len() > 0,
        forall|i: int| 0 <= i < keys.len() ==> keys[i] == key,
    ensures
        resolved_all(built, keys) == resolved(built, key),
        !built.contains(key) ==> resolved_all(built, keys) == built.push(key) && resolved_all(
            built,
            keys,
        ).len() == built.len() + 1,
        built.contains(key) ==> resolved_all(built, keys) == built,
    decreases keys.len(),
{
    let front = keys.drop_last();
    assert(keys.last() == key);
    if front.len() > 0 {
        lemma_shared_origin_one_backend(built, front, key);
        if !built.contains(key) {
            assert(built.push(key)[built.len() as int] == key);
        }
        assert(resolved(built, key).contains(key));
    } else {
        assert(resolved_all(built, front) == built);
    }
}

/// Locators that share one origin are all served by one handle, however many
/// they are. `states` are the states of the cache before, between and after
/// the calls of `operator` for them, `handles` what the calls return: every
/// call returns the handle that the first returned, the cache ends with that
/// handle for the origin and with at most one backend more than it began
/// with, and the backends of other origins are as they were.
pub proof fn lemma_shared_origin_one_handle<H>(
    states: Seq<Services<H>>,
    handles: Seq<H>,
    key: OriginKey,
)
    requires
        handles.len() >= 1,
        states.len() == handles.len() + 1,
        forall|i: int|
            0 <= i < handles.len() ==> (#[trigger] states[i]).serves(
                &states[i + 1],
                key,
                handles[i],
            ),
    ensures
        forall|i: int| 0 <= i < handles.len() ==> #[trigger] handles[i] == handles[0],
        states.last().handle_of(key) == Some(handles[0]),
        states.last().built() == resolved(states[0].built(), key),
        forall|other: OriginKey|
            other != key ==> states.last().handle_of(other) == states[0].handle_of(other),
    decreases handles.len(),
{
    let calls = handles.len() as int;
    assert(states[0].serves(&states[1], key, handles[0]));
    if calls > 1 {
        let front = states.drop_last();
        let given = handles.drop_last();
        assert forall|i: int| 0 <= i < given.len() implies (#[trigger] front[i]).serves(
            &front[i + 1],
            key,
            given[i],
        ) by {
            assert(states[i].serves(&states[i + 1], key, handles[i]));
        }
        lemma_shared_origin_one_handle(front, given, key);
        let before = states[calls - 1];
        assert(front.last() == before);
        assert(before.serves(&states[calls], key, handles[calls - 1]));
        assert(before.built().contains(key)) by {
            assert(states[1].consistent());
            if !states[0].built().contains(key) {
                assert(states[0].built().push(key)[states[0].built().len() as int] == key);
            }
        }
        assert forall|i: int| 0 <= i < handles.len() implies #[trigger] handles[i]
            == handles[0] by {
            if i < given.len() {
                assert(given[i] == given[0]);
            }
        }
    }
}

/// In a sequence without duplicates an element stands at one place only.
proof fn lemma_index_of_unique<A>(items: Seq<A>, needle: A, at: int)
    requires
        items.no_duplicates(),
        0 <= at < items.len(),
        items[at] == needle,
    ensures
        items.contains(needle),
        items.index_of(needle) == at,
{
    assert(items.contains(needle));
    let found = items.index_of(needle);
    assert(0 <= found < items.len() && items[found] == needle);
}

/// A backend handle with the origin it serves.
#[derive(Debug)]
struct Backend<H> {
    origin: Origin,
    handle: H,
}

/// The backends built so far, one for each origin. `H` is the handle type.
///
/// The backends stand in a vector that is searched in order: the key holds a
/// string, and vstd has no model of a hash map with such keys. Building goes
/// through `&mut self`, so that two callers cannot both find an origin
/// missing and both build for it: callers on several threads share the value
/// behind a lock.
#[derive(Debug)]
pub struct Services<H> {
    backends: Vec<Backend<H>>,
}

impl<H> Default for Services<H> {
    fn default() -> (services: Self)
        ensures
            services.built() == Seq::<OriginKey>::empty(),
            services.consistent(),
    {
        Services::new()
    }
}

impl<H> Services<H> {
    /// The origins for which a backend was built, in the order of building.
    pub closed spec fn built(&self) -> Seq<OriginKey> {
        Seq::new(self.backends.len() as nat, |i: int| self.backends[i].origin@)
    }

    /// The handle of the backend that serves `key`, where one was built.
    pub closed spec fn handle_of(&self, key: OriginKey) -> Option<H> {
        if self.built().contains(key) {
            Some(self.backends[self.built().index_of(key)].handle)
        } else {
            None
        }
    }

    /// No origin has two backends, and exactly the origins that were built
    /// for have a handle.
    pub open spec fn consistent(&self) -> bool {
        &&& self.built().no_duplicates()
        &&& forall|key: OriginKey|
            self.handle_of(key) is Some <==> self.built().contains(key)
    }

    /// What a call of `operator` that returns `handle` for a locator of
    /// origin `key` makes of the cache: `after` has a backend for `key`, built
    /// only if there was none, with that handle, which is the one kept before
    /// if one was; the backends of other origins are as they were.
    pub open spec fn serves(&self, after: &Self, key: OriginKey, handle: H) -> bool {
        &&& after.consistent()
        &&& after.built() == resolved(self.built(), key)
        &&& after.handle_of(key) == Some(handle)
        &&& self.handle_of(key) is Some ==> self.handle_of(key) == Some(handle)
        &&& forall|other: OriginKey|
            other != key ==> after.handle_of(other) == self.handle_of(other)
    }

    #[verifier::type_invariant]
    spec fn well_formed(&self) -> bool {
        self.built().no_duplicates()
    }

    /// No backends yet.
    pub fn new() -> (services: Self)
        ensures
            services.built() == Seq::<OriginKey>::empty(),
            services.consistent(),
    {
        Services { backends: Vec::new() }
    }

    /// The number of backends built so far.
    pub fn len(&self) -> (count: usize)
        ensures
            count == self.built().len(),
    {
        self.backends.len()
    }

    /// Where the backend for `key` stands, if one was built.
    fn position(&self, key: &Origin) -> (found: Option<usize>)
        ensures
            match found {
                Some(at) => at < self.built().len() && self.built()[at as int] == key@,
                None => !self.built().contains(key@),
            },
    {
        let mut at: usize = 0;
        while at < self.backends.len()
            invariant
                at <= self.backends.len(),
                forall|i: int| 0 <= i < at ==> self.built()[i] != key@,
            decreases self.backends.len() - at,
        {
            if self.backends[at].origin.same_as(key) {
                return Some(at);
            }
            at += 1;
        }
        None
    }

    /// The handle of the backend that serves `url`. Where a backend was
    /// built for the origin of `url` before, its handle is returned and
    /// nothing changes. Where none was, the handle that `build` returns for
    /// the service of `url` is kept for that origin and returned; when
    /// `build` fails its error is handed on and nothing is kept.
    pub fn operator<E, F: FnOnce(Service) -> Result<H, E>>(
        &mut self,
        url: &WheelUrl,
        build: F,
    ) -> (outcome: Result<&H, E>)
        requires
            forall|service: Service|
                service@ == url@.service() ==> call_requires(build, (service,)),
        ensures
            final(self).consistent(),
            outcome matches Ok(handle) ==> old(self).serves(final(self), url@.origin(), *handle),
            outcome is Err ==> final(self).built() == old(self).built(),
            match old(self).handle_of(url@.origin()) {
                Some(handle) => {
                    &&& outcome matches Ok(kept)
                    &&& *kept == handle
                    &&& final(self).built() == old(self).built()
                    &&& forall|key: OriginKey|
                        final(self).handle_of(key) == old(self).handle_of(key)
                },
                None => match outcome {
                    Ok(fresh) => {
                        &&& final(self).built() == old(self).built().push(url@.origin())
                        &&& final(self).handle_of(url@.origin()) == Some(*fresh)
                        &&& forall|key: OriginKey|
                            key != url@.origin() ==> final(self).handle_of(key) == old(
                                self,
                            ).handle_of(key)
                        &&& exists|service: Service|
                            service@ == url@.service() && call_ensures(
                                build,
                                (service,),
                                Ok::<H, E>(*fresh),
                            )
                    },
                    Err(error) => {
                        &&& final(self).built() == old(self).built()
                        &&& forall|key: OriginKey|
                            final(self).handle_of(key) == old(self).handle_of(key)
                        &&& exists|service: Service|
                            service@ == url@.service() && call_ensures(
                                build,
                                (service,),
                                Err::<H, E>(error),
                            )
                    },
                },
            },
    {
        proof {
            use_type_invariant(&*self);
        }
        let key = url.origin();
        match self.position(&key) {
            Some(at) => {
                proof {
                    lemma_index_of_unique(self.built(), key@, at as int);
                }
                Ok(&self.backends[at].handle)
            },
            None => {
                let service = url.service();
                match build(service) {
                    Ok(handle) => {
                        let ghost before = *self;
                        let mut backends: Vec<Backend<H>> = Vec::new();
                        core::mem::swap(&mut self.backends, &mut backends);
                        backends.push(Backend { origin: key, handle });
                        proof {
                            let after = Seq::new(
                                backends.len() as nat,
                                |i: int| backends[i].origin@,
                            );
                            assert(after =~= before.built().push(key@));
                            assert(after.no_duplicates());
                        }
                        core::mem::swap(&mut self.backends, &mut backends);
                        let last = self.backends.len() - 1;
                        proof {
                            assert(self.built() =~= before.built().push(key@));
                            lemma_index_of_unique(self.built(), key@, last as int);
                            assert forall|other: OriginKey|
                                other != key@ implies self.handle_of(other) == before.handle_of(
                                other,
                            ) by {
                                if before.built().contains(other) {
                                    let at = before.built().index_of(other);
                                    assert(self.built()[at] == other);
                                    lemma_index_of_unique(self.built(), other, at);
                                } else {
                                    if self.built().contains(other) {
                                        let at = self.built().index_of(other);
                                        assert(before.built()[at] == other);
                                    }
                                }
                            }
                        }
                        Ok(&self.backends[last].handle)
                    },
                    Err(error) => Err(error),
                }
            },
        }
    }

    /// Moves a fetch task on by one event: takes the event in, makes the
    /// steps that need no work outside, and says which work outside the task
    /// waits for next. The caller does that work and comes back with the
    /// event that reports on it, until the action is `Finish`.
    pub fn run(state: FetchState, event: FetchEvent) -> (next: (FetchState, FetchAction))
        ensures
            next.0@ == state@.step(event@),
            next.1 == next.0@.action(),
    {
        let state = state.on_event(event).settle();
        let action = match &state {
            FetchState::Pending => FetchAction::ResolveBackend,
            FetchState::BackendResolved => FetchAction::OpenArchive,
            FetchState::EntryLocated { index } => FetchAction::ReadEntry { index: *index },
            _ => FetchAction::Finish,
        };
        (state, action)
    }
}

} // verus!
