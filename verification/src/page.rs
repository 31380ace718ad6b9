//! The page in the browser: what it shows, and what it asks the server.

use crate::decimal::{decimal, decimal_text};
use crate::sizes::{duration_text, format_duration, format_size, size_text};
use crate::text::{
    all_white, concat2, concat3, copy_or, lemma_trim_empties_white_only, same_text, text_of,
    text_or, text_trim, trim,
};
use crate::types::{formats_of, FormatEntry, FormatView};
use vstd::prelude::*;
use vstd::string::*;

verus! {

/// The backend that the page asks for.
pub const BACKEND: &'static str = "ytdlp";

/// What the page shows.
#[derive(Debug, Clone)]
pub struct Page {
    pub status: String,
    pub status_class: String,
    pub error_msg: String,
    pub video_title: String,
    pub video_duration: String,
    pub formats: Vec<FormatEntry>,
    pub info_visible: bool,
    pub loading: bool,
    pub health_text: String,
    pub health_class: String,
    pub fetch_disabled: bool,
}

/// The model of what the page shows.
pub struct PageView {
    pub status: Seq<char>,
    pub status_class: Seq<char>,
    pub error_msg: Seq<char>,
    pub video_title: Seq<char>,
    pub video_duration: Seq<char>,
    pub formats: Seq<FormatView>,
    pub info_visible: bool,
    pub loading: bool,
    pub health_text: Seq<char>,
    pub health_class: Seq<char>,
    pub fetch_disabled: bool,
}

impl View for Page {
    type V = PageView;

    open spec fn view(&self) -> PageView {
        PageView {
            status: self.status@,
            status_class: self.status_class@,
            error_msg: self.error_msg@,
            video_title: self.video_title@,
            video_duration: self.video_duration@,
            formats: formats_of(self.formats@),
            info_visible: self.info_visible,
            loading: self.loading,
            health_text: self.health_text@,
            health_class: self.health_class@,
            fetch_disabled: self.fetch_disabled,
        }
    }
}

/// What the server says of the backend.
#[derive(Debug)]
pub struct HealthResponse {
    pub name: Option<String>,
    pub available: Option<bool>,
    pub version: Option<String>,
}

/// What comes of asking the server for the backend.
#[derive(Debug)]
pub enum HealthEvent {
    /// The server did not answer.
    Offline,
    /// The answer could not be read.
    Unreadable,
    /// The server answered.
    Answered(HealthResponse),
}

/// What the server says of a video. The duration is in whole seconds.
#[derive(Debug)]
pub struct FetchedInfo {
    pub title: String,
    pub duration: Option<u64>,
    pub formats: Vec<FormatEntry>,
    pub error: Option<String>,
}

/// What comes of asking the server for a video.
#[derive(Debug)]
pub enum FetchEvent {
    /// The server did not answer, for the given reason.
    Failed(String),
    /// The answer could not be read.
    Unreadable,
    /// The server answered.
    Answered(FetchedInfo),
}

/// The page before anything has happened.
pub open spec fn first_page() -> PageView {
    PageView {
        status: "READY"@,
        status_class: ""@,
        error_msg: ""@,
        video_title: ""@,
        video_duration: ""@,
        formats: seq![],
        info_visible: false,
        loading: false,
        health_text: "checking..."@,
        health_class: ""@,
        fetch_disabled: true,
    }
}

/// The page once it is known whether the backend can be used.
pub open spec fn page_after_health(page: PageView, event: HealthEvent) -> PageView {
    match event {
        HealthEvent::Offline => PageView {
            health_text: "offline"@,
            health_class: "health unhealthy"@,
            fetch_disabled: true,
            status: "SERVER OFFLINE"@,
            status_class: "error"@,
            ..page
        },
        HealthEvent::Unreadable => page,
        HealthEvent::Answered(response) => if response.available == Some(true) {
            PageView {
                health_text: text_or(text_of(response.version), "healthy"@),
                health_class: "health healthy"@,
                fetch_disabled: false,
                ..page
            }
        } else {
            PageView {
                health_text: "unavailable"@,
                health_class: "health unhealthy"@,
                fetch_disabled: true,
                status: text_or(text_of(response.name), "Backend"@) + " NOT AVAILABLE"@,
                status_class: "error"@,
                ..page
            }
        },
    }
}

/// The page once the user has asked for a video at `url`.
pub open spec fn page_after_request(page: PageView, url: Seq<char>) -> PageView {
    if trim(url).len() == 0 {
        PageView { status: "ENTER A VALID URL"@, status_class: "error"@, ..page }
    } else {
        PageView {
            loading: true,
            fetch_disabled: true,
            error_msg: ""@,
            info_visible: false,
            status: "FETCHING VIDEO INFO..."@,
            status_class: "info"@,
            ..page
        }
    }
}

/// The formats that the page offers: those with pictures.
pub open spec fn offered(formats: Seq<FormatView>) -> Seq<FormatView> {
    formats.filter(|f: FormatView| f.vcodec != "none"@)
}

/// The page once it is known what the server says of a video.
pub open spec fn page_after_fetch(page: PageView, event: FetchEvent) -> PageView {
    match event {
        FetchEvent::Failed(reason) => PageView {
            error_msg: "NETWORK ERROR: "@ + reason@,
            status: "CONNECTION FAILED"@,
            status_class: "error"@,
            loading: false,
            fetch_disabled: false,
            ..page
        },
        FetchEvent::Unreadable => PageView { loading: false, fetch_disabled: false, ..page },
        FetchEvent::Answered(info) => match info.error {
            Some(error) => PageView {
                error_msg: error@,
                status: "FETCH FAILED"@,
                status_class: "error"@,
                loading: false,
                fetch_disabled: false,
                ..page
            },
            None => PageView {
                video_title: info.title@,
                video_duration: match info.duration {
                    Some(seconds) => duration_text(seconds as nat),
                    None => ""@,
                },
                formats: offered(formats_of(info.formats@)),
                info_visible: true,
                status: "VIDEO FOUND"@,
                status_class: ""@,
                loading: false,
                fetch_disabled: false,
                ..page
            },
        },
    }
}

/// Keeps the formats with pictures.
fn keep_offered(formats: Vec<FormatEntry>) -> (kept: Vec<FormatEntry>)
    ensures
        formats_of(kept@) == offered(formats_of(formats@)),
{
    let ghost all = formats_of(formats@);
    let mut rest: Vec<FormatEntry> = formats;
    let mut kept: Vec<FormatEntry> = Vec::new();
    let ghost mut done: int = 0;
    proof {
        reveal(Seq::filter);
        assert(all.take(0) =~= seq![]);
        assert(formats_of(kept@) =~= offered(all.take(0)));
        assert(formats_of(rest@) =~= all.skip(0));
    }
    while rest.len() > 0
        invariant
            0 <= done <= all.len(),
            formats_of(rest@) =~= all.skip(done),
            formats_of(kept@) == offered(all.take(done)),
        decreases rest@.len(),
    {
        let ghost left = rest@;
        let ghost before = kept@;
        let format = rest.remove(0);
        proof {
            assert(formats_of(left)[0] == format@);
            assert(formats_of(rest@) =~= formats_of(left).drop_first());
            assert(all.skip(done).drop_first() =~= all.skip(done + 1));
            assert(all.take(done + 1) =~= all.take(done).push(format@));
            all.take(done).lemma_filter_push(format@, |f: FormatView| f.vcodec != "none"@);
        }
        if !same_text(format.vcodec.as_str(), "none") {
            kept.push(format);
            assert(formats_of(kept@) =~= formats_of(before).push(format@));
        }
        proof {
            done = done + 1;
        }
    }
    assert(all.take(done) =~= all);
    kept
}

impl Page {
    /// The page before anything has happened.
    pub fn new() -> (page: Page)
        ensures
            page@ == first_page(),
    {
        let page = Page {
            status: "READY".to_owned(),
            status_class: "".to_owned(),
            error_msg: "".to_owned(),
            video_title: "".to_owned(),
            video_duration: "".to_owned(),
            formats: Vec::new(),
            info_visible: false,
            loading: false,
            health_text: "checking...".to_owned(),
            health_class: "".to_owned(),
            fetch_disabled: true,
        };
        assert(page@.formats =~= seq![]);
        page
    }

    /// Shows whether the backend can be used.
    pub fn show_health(&mut self, event: HealthEvent)
        ensures
            final(self)@ == page_after_health(old(self)@, event),
    {
        match event {
            HealthEvent::Offline => {
                self.health_text = "offline".to_owned();
                self.health_class = "health unhealthy".to_owned();
                self.fetch_disabled = true;
                self.status = "SERVER OFFLINE".to_owned();
                self.status_class = "error".to_owned();
            },
            HealthEvent::Unreadable => {},
            HealthEvent::Answered(response) => {
                let available = match response.available {
                    Some(available) => available,
                    None => false,
                };
                if available {
                    self.health_text = copy_or(&response.version, "healthy");
                    self.health_class = "health healthy".to_owned();
                    self.fetch_disabled = false;
                } else {
                    self.health_text = "unavailable".to_owned();
                    self.health_class = "health unhealthy".to_owned();
                    self.fetch_disabled = true;
                    let name = copy_or(&response.name, "Backend");
                    self.status = concat2(name.as_str(), " NOT AVAILABLE");
                    self.status_class = "error".to_owned();
                }
            },
        }
    }

    /// Shows that a video is asked for, and gives back the address that is sent to the server, if
    /// there is one.
    pub fn start_fetch(&mut self, url: &str) -> (wanted: Option<String>)
        ensures
            final(self)@ == page_after_request(old(self)@, url@),
            text_of(wanted) == if trim(url@).len() == 0 {
                None
            } else {
                Some(trim(url@))
            },
    {
        let inner = text_trim(url);
        if inner.is_empty() {
            self.status = "ENTER A VALID URL".to_owned();
            self.status_class = "error".to_owned();
            return None;
        }
        self.loading = true;
        self.fetch_disabled = true;
        self.error_msg = "".to_owned();
        self.info_visible = false;
        self.status = "FETCHING VIDEO INFO...".to_owned();
        self.status_class = "info".to_owned();
        Some(inner.to_owned())
    }

    /// Shows what the server says of a video.
    pub fn show_fetched(&mut self, event: FetchEvent)
        ensures
            final(self)@ == page_after_fetch(old(self)@, event),
    {
        match event {
            FetchEvent::Failed(reason) => {
                self.error_msg = concat2("NETWORK ERROR: ", reason.as_str());
                self.status = "CONNECTION FAILED".to_owned();
                self.status_class = "error".to_owned();
            },
            FetchEvent::Unreadable => {},
            FetchEvent::Answered(info) => match info.error {
                Some(error) => {
                    self.error_msg = error;
                    self.status = "FETCH FAILED".to_owned();
                    self.status_class = "error".to_owned();
                },
                None => {
                    self.video_title = info.title;
                    self.video_duration = match info.duration {
                        Some(seconds) => format_duration(seconds),
                        None => "".to_owned(),
                    };
                    self.formats = keep_offered(info.formats);
                    self.info_visible = true;
                    self.status = "VIDEO FOUND".to_owned();
                    self.status_class = "".to_owned();
                },
            },
        }
        self.loading = false;
        self.fetch_disabled = false;
    }

    /// Shows that a download was started.
    pub fn show_download(&mut self)
        ensures
            final(self)@ == (PageView {
                status: "DOWNLOAD STARTED - CHECK BROWSER DOWNLOADS"@,
                ..old(self)@
            }),
    {
        self.status = "DOWNLOAD STARTED - CHECK BROWSER DOWNLOADS".to_owned();
    }
}

/// The size and rate that the button for a format shows.
pub open spec fn button_text(size: Option<u64>, fps: Option<u32>) -> Seq<char> {
    let first = match size {
        Some(bytes) => size_text(bytes as nat),
        None => "--"@,
    };
    match fps {
        Some(rate) => first + " "@ + decimal(rate as nat) + "fps"@,
        None => first,
    }
}

/// Writes the size and rate that the button for a format shows.
pub fn format_button(size: Option<u64>, fps: Option<u32>) -> (text: String)
    ensures
        text@ == button_text(size, fps),
{
    let mut text: String = match size {
        Some(bytes) => format_size(bytes),
        None => "--".to_owned(),
    };
    match fps {
        Some(rate) => {
            text.append(" ");
            text.append(decimal_text(rate as u64).as_str());
            text.append("fps");
        },
        None => {},
    }
    text
}

/// What a text is in the address of a request, with every character escaped that has a meaning
/// there.
pub uninterp spec fn uri_component(text: Seq<char>) -> Option<Seq<char>>;

/// Calls `js_sys::encode_uri_component`, and `as_string` on its result. Claims that what it gives
/// depends on the text alone. The function is the browser's own: outside a browser a call panics,
/// whatever the text.
#[verifier::external_body]
fn encode_component(text: &str) -> (encoded: Option<String>)
    ensures
        text_of(encoded) == uri_component(text@),
{
    js_sys::encode_uri_component(text).as_string()
}

/// Escapes a text for the address of a request, or leaves it as it is where that fails.
fn escaped(text: &str) -> (out: String)
    ensures
        out@ == text_or(uri_component(text@), text@),
{
    let encoded = encode_component(text);
    copy_or(&encoded, text)
}

/// The address at which the server says whether the backend can be used.
pub fn health_address() -> (address: String)
    ensures
        address@ == "/api/health?backend="@ + "ytdlp"@,
{
    concat2("/api/health?backend=", BACKEND)
}

/// The address at which the server gives information on a video, whose own address is given in
/// escaped form.
pub fn info_address(url: &str) -> (address: String)
    ensures
        address@ == "/api/info?url="@ + url@ + "&backend="@ + "ytdlp"@,
{
    let mut address: String = concat3("/api/info?url=", url, "&backend=");
    address.append(BACKEND);
    address
}

/// The address at which the server gives information on the video at `url`. The browser escapes
/// it: outside a browser the call panics, whatever the address.
pub fn info_address_for(url: &str) -> (address: String)
    ensures
        address@ == "/api/info?url="@ + text_or(uri_component(url@), url@) + "&backend="@
            + "ytdlp"@,
{
    info_address(escaped(url).as_str())
}

/// The address at which the server gives a download, whose own address and format are given in
/// escaped form.
pub fn download_address(url: &str, format_id: &str) -> (address: String)
    ensures
        address@ == "/api/download?url="@ + url@ + "&format_id="@ + format_id@
            + "&merge_audio=true&backend="@ + "ytdlp"@,
{
    let mut address: String = concat3("/api/download?url=", url, "&format_id=");
    address.append(format_id);
    address.append("&merge_audio=true&backend=");
    address.append(BACKEND);
    address
}

/// The address at which the server gives the video at `url` in the format `format_id`. The browser
/// escapes both: outside a browser the call panics, whatever they are.
pub fn download_address_for(url: &str, format_id: &str) -> (address: String)
    ensures
        address@ == "/api/download?url="@ + text_or(uri_component(url@), url@) + "&format_id="@
            + text_or(uri_component(format_id@), format_id@) + "&merge_audio=true&backend="@
            + "ytdlp"@,
{
    download_address(escaped(url).as_str(), escaped(format_id).as_str())
}

/// The page offers formats with pictures only, and all of those that the server named.
pub proof fn lemma_offered_have_pictures(formats: Seq<FormatView>)
    ensures
        forall|i: int|
            0 <= i < offered(formats).len() ==> (#[trigger] offered(formats)[i]).vcodec != "none"@,
        forall|j: int|
            0 <= j < formats.len() && (#[trigger] formats[j]).vcodec != "none"@
                ==> offered(formats).contains(formats[j]),
{
    let wanted = |f: FormatView| f.vcodec != "none"@;
    assert forall|i: int| 0 <= i < offered(formats).len() implies (
    #[trigger] offered(formats)[i]).vcodec != "none"@ by {
        formats.lemma_filter_pred(wanted, i);
    }
    assert forall|j: int|
        0 <= j < formats.len() && (#[trigger] formats[j]).vcodec
            != "none"@ implies offered(formats).contains(formats[j]) by {
        formats.lemma_filter_contains(wanted, j);
    }
}

/// Whatever comes of asking the server for a video, the page ends ready for the next request.
pub proof fn lemma_page_ends_ready(page: PageView, event: FetchEvent)
    ensures
        !page_after_fetch(page, event).loading,
        !page_after_fetch(page, event).fetch_disabled,
{
}

/// Information is shown next to no error of the same request: a request clears the error, and an
/// answer with an error shows no information.
pub proof fn lemma_error_or_information(page: PageView, url: Seq<char>, event: FetchEvent)
    requires
        trim(url).len() > 0,
    ensures
        ({
            let out = page_after_fetch(page_after_request(page, url), event);
            out.info_visible ==> out.error_msg == ""@
        }),
{
}

/// At first the page shows that it is ready and nothing of a video; until the server has answered,
/// no video can be asked for.
pub proof fn lemma_first_page_is_bare()
    ensures
        ({
            let page = first_page();
            &&& page.status == "READY"@
            &&& page.health_text == "checking..."@
            &&& page.status_class.len() == 0 && page.health_class.len() == 0
            &&& page.error_msg.len() == 0
            &&& page.video_title.len() == 0 && page.video_duration.len() == 0
            &&& page.formats.len() == 0
            &&& !page.info_visible && !page.loading
            &&& page.fetch_disabled
        }),
{
    reveal_strlit("");
}

/// Whether the backend can be used changes nothing of what the page shows of a video. An answer
/// that cannot be read changes nothing at all.
pub proof fn lemma_health_leaves_video(page: PageView, event: HealthEvent)
    ensures
        ({
            let out = page_after_health(page, event);
            &&& out.error_msg == page.error_msg
            &&& out.video_title == page.video_title
            &&& out.video_duration == page.video_duration
            &&& out.formats == page.formats
            &&& out.info_visible == page.info_visible
            &&& out.loading == page.loading
            &&& event is Unreadable ==> out == page
        }),
{
}

/// A backend that can be used is shown with its version, and videos can be asked for from then on;
/// the status stays. Any other is shown as unhealthy, by its name, and no video can be asked for.
pub proof fn lemma_health_is_shown(page: PageView, response: HealthResponse)
    ensures
        ({
            let out = page_after_health(page, HealthEvent::Answered(response));
            let usable = response.available == Some(true);
            &&& out.fetch_disabled == !usable
            &&& usable ==> out.health_class == "health healthy"@ && out.status == page.status
                && out.status_class == page.status_class
            &&& usable && response.version is Some ==> out.health_text == (response.version->0)@
            &&& usable && response.version is None ==> out.health_text == "healthy"@
            &&& !usable ==> out.health_class == "health unhealthy"@ && out.health_text
                == "unavailable"@ && out.status_class == "error"@
            &&& !usable && response.name is Some ==> out.status == (response.name->0)@
                + " NOT AVAILABLE"@
            &&& !usable && response.name is None ==> out.status == "Backend NOT AVAILABLE"@
        }),
{
    reveal_strlit("Backend");
    reveal_strlit(" NOT AVAILABLE");
    reveal_strlit("Backend NOT AVAILABLE");
    assert("Backend"@ + " NOT AVAILABLE"@ =~= "Backend NOT AVAILABLE"@);
}

/// A server that does not answer is shown as offline, and no video can be asked for.
pub proof fn lemma_offline_is_shown(page: PageView)
    ensures
        ({
            let out = page_after_health(page, HealthEvent::Offline);
            &&& out.fetch_disabled
            &&& out.health_text == "offline"@
            &&& out.health_class == "health unhealthy"@
            &&& out.status == "SERVER OFFLINE"@
            &&& out.status_class == "error"@
        }),
{
}

/// A request with an address hides what was shown before, and no second one can be made until it
/// has ended. One without an address says that it lacks one, and changes nothing else. Neither
/// touches the title, the length and the formats, nor what is shown of the backend.
pub proof fn lemma_request_is_shown(page: PageView, url: Seq<char>)
    ensures
        ({
            let out = page_after_request(page, url);
            &&& out.video_title == page.video_title
            &&& out.video_duration == page.video_duration
            &&& out.formats == page.formats
            &&& out.health_text == page.health_text
            &&& out.health_class == page.health_class
            &&& all_white(url) ==> out.status == "ENTER A VALID URL"@ && out.status_class
                == "error"@ && out.error_msg == page.error_msg && out.info_visible
                == page.info_visible && out.loading == page.loading && out.fetch_disabled
                == page.fetch_disabled
            &&& !all_white(url) ==> out.status == "FETCHING VIDEO INFO..."@ && out.status_class
                == "info"@ && out.error_msg.len() == 0 && !out.info_visible && out.loading
                && out.fetch_disabled
        }),
{
    reveal_strlit("");
    lemma_trim_empties_white_only(url);
}

/// What comes of a request changes nothing of what is shown of the backend. Where it brings no
/// information, what was shown of a video stays, and the reason is told.
pub proof fn lemma_failed_fetch_is_told(page: PageView, event: FetchEvent)
    ensures
        ({
            let out = page_after_fetch(page, event);
            &&& out.health_text == page.health_text
            &&& out.health_class == page.health_class
            &&& !out.loading && !out.fetch_disabled
            &&& !(event matches FetchEvent::Answered(info) && info.error is None) ==> out.formats
                == page.formats && out.video_title == page.video_title && out.video_duration
                == page.video_duration && out.info_visible == page.info_visible
            &&& event matches FetchEvent::Failed(reason) ==> out.error_msg == "NETWORK ERROR: "@
                + reason@ && out.status == "CONNECTION FAILED"@ && out.status_class == "error"@
            &&& event is Unreadable ==> out.error_msg == page.error_msg && out.status == page.status
                && out.status_class == page.status_class
            &&& event matches FetchEvent::Answered(info) ==> (info.error matches Some(error)
                ==> out.error_msg == error@ && out.status == "FETCH FAILED"@ && out.status_class
                == "error"@)
        }),
{
}

/// Information is shown with the title and the length of the video, and with its formats that have
/// pictures; the error is left as it was.
pub proof fn lemma_information_is_shown(page: PageView, info: FetchedInfo)
    requires
        info.error is None,
    ensures
        ({
            let out = page_after_fetch(page, FetchEvent::Answered(info));
            &&& out.video_title == info.title@
            &&& info.duration is Some ==> out.video_duration == duration_text(
                info.duration->0 as nat,
            )
            &&& info.duration is None ==> out.video_duration.len() == 0
            &&& out.formats == offered(formats_of(info.formats@))
            &&& out.info_visible
            &&& out.status == "VIDEO FOUND"@
            &&& out.status_class.len() == 0
            &&& out.error_msg == page.error_msg
        }),
{
    reveal_strlit("");
}

/// One format more is offered behind the others where it has pictures, and left out where it has
/// none.
pub proof fn lemma_offered_one_by_one(formats: Seq<FormatView>, next: FormatView)
    ensures
        offered(Seq::empty()).len() == 0,
        next.vcodec == "none"@ ==> offered(formats.push(next)) == offered(formats),
        next.vcodec != "none"@ ==> offered(formats.push(next)) == offered(formats).push(next),
{
    reveal(Seq::filter);
    formats.lemma_filter_push(next, |f: FormatView| f.vcodec != "none"@);
}

/// A button shows two dashes where the size is not known; a rate that is known stands behind it.
pub proof fn lemma_button_shows(size: Option<u64>, bytes: u64, rate: u32)
    ensures
        button_text(None, None) == seq!['-', '-'],
        button_text(Some(bytes), None) == size_text(bytes as nat),
        button_text(size, Some(rate)) == button_text(size, None) + seq![' '] + decimal(rate as nat)
            + seq!['f', 'p', 's'],
{
    reveal_strlit("--");
    reveal_strlit(" ");
    reveal_strlit("fps");
    assert("--"@ =~= seq!['-', '-']);
    assert(" "@ =~= seq![' ']);
    assert("fps"@ =~= seq!['f', 'p', 's']);
}

} // verus!
