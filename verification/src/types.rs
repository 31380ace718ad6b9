//! What the backends report: formats, video information, health and errors.

use crate::text::{concat2, text_of};
use vstd::prelude::*;
use vstd::string::*;

verus! {

/// The error of an operation on a file or a stream.
#[verifier::external_type_specification]
#[verifier::external_body]
pub struct ExIoError(std::io::Error);

/// A quantity that is reported as a floating-point number, in the form in which it is known.
#[derive(Debug, Clone)]
pub enum Quantity {
    /// A whole number.
    Whole(u64),
    /// The bits of a double-precision number.
    Bits(u64),
    /// Decimal notation that is still to be read; what is no number counts as absent.
    Decimal(String),
}

/// The model of a quantity.
pub enum QuantityView {
    Whole(u64),
    Bits(u64),
    Decimal(Seq<char>),
}

impl View for Quantity {
    type V = QuantityView;

    open spec fn view(&self) -> QuantityView {
        match self {
            Quantity::Whole(n) => QuantityView::Whole(*n),
            Quantity::Bits(b) => QuantityView::Bits(*b),
            Quantity::Decimal(s) => QuantityView::Decimal(s@),
        }
    }
}

/// The model of an optional quantity.
pub open spec fn quantity_of(q: Option<Quantity>) -> Option<QuantityView> {
    match q {
        Some(n) => Some(n@),
        None => None,
    }
}

/// One format in which a video can be had.
#[derive(Debug, Clone)]
pub struct FormatEntry {
    pub format_id: String,
    pub ext: String,
    pub resolution: String,
    pub filesize: Option<u64>,
    pub fps: Option<Quantity>,
    pub vcodec: String,
    pub acodec: String,
}

/// The model of a format.
pub struct FormatView {
    pub format_id: Seq<char>,
    pub ext: Seq<char>,
    pub resolution: Seq<char>,
    pub filesize: Option<u64>,
    pub fps: Option<QuantityView>,
    pub vcodec: Seq<char>,
    pub acodec: Seq<char>,
}

impl View for FormatEntry {
    type V = FormatView;

    open spec fn view(&self) -> FormatView {
        FormatView {
            format_id: self.format_id@,
            ext: self.ext@,
            resolution: self.resolution@,
            filesize: self.filesize,
            fps: quantity_of(self.fps),
            vcodec: self.vcodec@,
            acodec: self.acodec@,
        }
    }
}

/// The models of a list of formats.
pub open spec fn formats_of(list: Seq<FormatEntry>) -> Seq<FormatView> {
    list.map_values(|f: FormatEntry| f@)
}

/// What is known of a video, or why nothing is.
#[derive(Debug, Clone)]
pub struct VideoInfo {
    pub title: String,
    pub duration: Option<Quantity>,
    pub thumbnail: Option<String>,
    pub formats: Vec<FormatEntry>,
    pub error: Option<String>,
}

/// The model of what is known of a video.
pub struct VideoInfoView {
    pub title: Seq<char>,
    pub duration: Option<QuantityView>,
    pub thumbnail: Option<Seq<char>>,
    pub formats: Seq<FormatView>,
    pub error: Option<Seq<char>>,
}

impl View for VideoInfo {
    type V = VideoInfoView;

    open spec fn view(&self) -> VideoInfoView {
        VideoInfoView {
            title: self.title@,
            duration: quantity_of(self.duration),
            thumbnail: text_of(self.thumbnail),
            formats: formats_of(self.formats@),
            error: text_of(self.error),
        }
    }
}

/// The information that says of a video only why nothing is known of it.
pub open spec fn failed_info(error: Seq<char>) -> VideoInfoView {
    VideoInfoView {
        title: seq![],
        duration: None,
        thumbnail: None,
        formats: seq![],
        error: Some(error),
    }
}

impl VideoInfo {
    /// Reports that nothing is known of a video, because of `error`.
    pub fn failed(error: String) -> (info: VideoInfo)
        ensures
            info@ == failed_info(error@),
    {
        let info = VideoInfo {
            title: String::new(),
            duration: None,
            thumbnail: None,
            formats: Vec::new(),
            error: Some(error),
        };
        assert(info@.formats =~= seq![]);
        info
    }
}

/// Whether a backend can be used.
#[derive(Debug, Clone)]
pub struct HealthStatus {
    pub backend_name: String,
    pub available: bool,
    pub version: Option<String>,
}

/// The model of whether a backend can be used.
pub struct HealthView {
    pub backend_name: Seq<char>,
    pub available: bool,
    pub version: Option<Seq<char>>,
}

impl View for HealthStatus {
    type V = HealthView;

    open spec fn view(&self) -> HealthView {
        HealthView {
            backend_name: self.backend_name@,
            available: self.available,
            version: text_of(self.version),
        }
    }
}

/// What a finished download is called and how large it is.
#[derive(Debug, Clone)]
pub struct DownloadOutput {
    pub filename: String,
    pub content_type: String,
    pub size_hint: Option<u64>,
}

/// The model of a finished download.
pub struct DownloadView {
    pub filename: Seq<char>,
    pub content_type: Seq<char>,
    pub size_hint: Option<u64>,
}

impl View for DownloadOutput {
    type V = DownloadView;

    open spec fn view(&self) -> DownloadView {
        DownloadView {
            filename: self.filename@,
            content_type: self.content_type@,
            size_hint: self.size_hint,
        }
    }
}

/// Why a backend could not do what it was asked to.
#[derive(Debug)]
pub enum BackendError {
    NotFound(String),
    InvalidUrl(String),
    ExtractionFailed(String),
    DownloadFailed(String),
    Io(std::io::Error),
}

/// The model of an error: its kind, and its text where the library wrote that text.
pub enum ErrorView {
    NotFound(Seq<char>),
    InvalidUrl(Seq<char>),
    ExtractionFailed(Seq<char>),
    DownloadFailed(Seq<char>),
    Io,
}

impl View for BackendError {
    type V = ErrorView;

    open spec fn view(&self) -> ErrorView {
        match self {
            BackendError::NotFound(m) => ErrorView::NotFound(m@),
            BackendError::InvalidUrl(m) => ErrorView::InvalidUrl(m@),
            BackendError::ExtractionFailed(m) => ErrorView::ExtractionFailed(m@),
            BackendError::DownloadFailed(m) => ErrorView::DownloadFailed(m@),
            BackendError::Io(_) => ErrorView::Io,
        }
    }
}

/// The outcome of an enquiry in terms of the models.
pub open spec fn info_outcome(result: Result<VideoInfo, BackendError>) -> Result<
    VideoInfoView,
    ErrorView,
> {
    match result {
        Ok(info) => Ok(info@),
        Err(error) => Err(error@),
    }
}

impl From<std::io::Error> for BackendError {
    fn from(e: std::io::Error) -> (error: Self) {
        BackendError::Io(e)
    }
}

impl vstd::std_specs::convert::FromSpecImpl<std::io::Error> for BackendError {
    open spec fn obeys_from_spec() -> bool {
        true
    }

    open spec fn from_spec(e: std::io::Error) -> Self {
        BackendError::Io(e)
    }
}

/// Calls `to_string` of `std::io::Error`. The text comes from the operating system, so nothing
/// is claimed of it.
#[verifier::external_body]
fn io_error_text(e: &std::io::Error) -> (text: String) {
    e.to_string()
}

/// Names an error of the kind `Io` whose own text is `text`.
pub fn io_error_message(text: &str) -> (message: String)
    ensures
        message@ == "io error: "@ + text@,
{
    concat2("io error: ", text)
}

/// The text of an error, as far as the library writes it.
pub open spec fn names_error(error: ErrorView, message: Seq<char>) -> bool {
    match error {
        ErrorView::NotFound(m) => message == "not found: "@ + m,
        ErrorView::InvalidUrl(m) => message == "invalid url: "@ + m,
        ErrorView::ExtractionFailed(m) => message == "extraction failed: "@ + m,
        ErrorView::DownloadFailed(m) => message == "download failed: "@ + m,
        ErrorView::Io => exists|text: Seq<char>| message == #[trigger] ("io error: "@ + text),
    }
}

impl BackendError {
    /// Names the error for the user.
    pub fn message(&self) -> (message: String)
        ensures
            names_error(self@, message@),
    {
        match self {
            BackendError::NotFound(m) => concat2("not found: ", m.as_str()),
            BackendError::InvalidUrl(m) => concat2("invalid url: ", m.as_str()),
            BackendError::ExtractionFailed(m) => concat2("extraction failed: ", m.as_str()),
            BackendError::DownloadFailed(m) => concat2("download failed: ", m.as_str()),
            BackendError::Io(e) => {
                let text = io_error_text(e);
                io_error_message(text.as_str())
            },
        }
    }
}

/// What is said of a video of which nothing is known: why, and nothing else.
pub proof fn lemma_failure_says_why_only(error: Seq<char>)
    ensures
        failed_info(error).error == Some(error),
        failed_info(error).title.len() == 0,
        failed_info(error).duration is None,
        failed_info(error).thumbnail is None,
        failed_info(error).formats.len() == 0,
{
}

/// The text of an error says of which kind it is, and ends with what the library wrote.
pub proof fn lemma_errors_by_kind(text: Seq<char>, message: Seq<char>)
    ensures
        names_error(ErrorView::NotFound(text), message) <==> message == "not found: "@ + text,
        names_error(ErrorView::InvalidUrl(text), message) <==> message == "invalid url: "@ + text,
        names_error(ErrorView::ExtractionFailed(text), message) <==> message
            == "extraction failed: "@ + text,
        names_error(ErrorView::DownloadFailed(text), message) <==> message == "download failed: "@
            + text,
        names_error(ErrorView::Io, message) <==> "io error: "@.is_prefix_of(message),
{
    let front = "io error: "@;
    if front.is_prefix_of(message) {
        let rest = message.subrange(front.len() as int, message.len() as int);
        assert(message =~= front + rest);
    }
    if names_error(ErrorView::Io, message) {
        let rest = choose|rest: Seq<char>| message == #[trigger] (front + rest);
        assert(front =~= message.subrange(0, front.len() as int));
    }
}

} // verus!
