//! Reading one access point.
//!
//! An access point is read property by property: the network name, the
//! signal strength, then the two sets of capability flags. Name and strength
//! are mandatory. A set of flags that cannot be read counts as empty.

use vstd::prelude::*;
use vstd::utf8::{decode_utf8, valid_utf8};
use crate::access_point::{AccessPoint, AccessPointView};
use crate::bus::{number_or_zero, Reply, ReplyView, Request, RequestView, Service};

verus! {

/// The text that lossy UTF-8 decoding makes of `bytes`: the bytes decoded,
/// each maximal ill-formed run replaced by U+FFFD.
pub uninterp spec fn utf8_lossy(bytes: Seq<u8>) -> Seq<char>;

/// Decodes bytes as UTF-8 text, with replacement characters for what is not.
///
/// Calls `String::from_utf8_lossy`. Its contract is taken on trust, not
/// proved: the result is named [`utf8_lossy`], and of well-formed input the
/// standard library promises the text unchanged, which is all that is
/// stated of the name.
#[verifier::external_body]
fn text_from_utf8_lossy(bytes: &Vec<u8>) -> (text: String)
    ensures
        text@ == utf8_lossy(bytes@),
        valid_utf8(bytes@) ==> text@ == decode_utf8(bytes@),
{
    String::from_utf8_lossy(bytes).into_owned()
}

/// The mandatory property whose reading was missing.
#[derive(Debug, Clone, Copy, PartialEq, Eq, Structural)]
pub enum DecodeError {
    MissingSsid,
    MissingStrength,
}

/// A set of flags as read; empty where it could not be read.
pub open spec fn flags(reading: Option<u32>) -> u32 {
    match reading {
        Some(flags) => flags,
        None => 0,
    }
}

/// The access point that the four readings describe.
pub open spec fn decoded(
    path: Seq<char>,
    ssid: Option<Seq<u8>>,
    strength: Option<u8>,
    wpa_flags: Option<u32>,
    rsn_flags: Option<u32>,
) -> Result<AccessPointView, DecodeError> {
    match ssid {
        None => Err(DecodeError::MissingSsid),
        Some(bytes) => match strength {
            None => Err(DecodeError::MissingStrength),
            Some(level) => Ok(
                AccessPointView {
                    ssid: utf8_lossy(bytes),
                    strength: level,
                    is_secured: flags(wpa_flags) != 0 || flags(rsn_flags) != 0,
                    path,
                },
            ),
        },
    }
}

/// The content of a decoding result.
pub open spec fn decoding_view(result: Result<AccessPoint, DecodeError>) -> Result<
    AccessPointView,
    DecodeError,
> {
    match result {
        Ok(ap) => Ok(ap@),
        Err(error) => Err(error),
    }
}

/// Makes an access point of what was read of it. `None` stands for a
/// property that could not be read.
pub fn decode_access_point(
    path: String,
    ssid: Option<Vec<u8>>,
    strength: Option<u8>,
    wpa_flags: Option<u32>,
    rsn_flags: Option<u32>,
) -> (result: Result<AccessPoint, DecodeError>)
    ensures
        decoding_view(result) == decoded(
            path@,
            match ssid {
                Some(bytes) => Some(bytes@),
                None => None,
            },
            strength,
            wpa_flags,
            rsn_flags,
        ),
        result matches Ok(ap) ==> (ap.is_secured <==> (wpa_flags matches Some(flags) && flags != 0)
            || (rsn_flags matches Some(flags) && flags != 0)),
{
    let bytes = match ssid {
        Some(bytes) => bytes,
        None => { return Err(DecodeError::MissingSsid); },
    };
    let level = match strength {
        Some(level) => level,
        None => { return Err(DecodeError::MissingStrength); },
    };
    let wpa = match wpa_flags {
        Some(flags) => flags,
        None => 0,
    };
    let rsn = match rsn_flags {
        Some(flags) => flags,
        None => 0,
    };
    Ok(
        AccessPoint {
            ssid: text_from_utf8_lossy(&bytes),
            strength: level,
            is_secured: wpa != 0 || rsn != 0,
            path,
        },
    )
}

/// The property a reader is waiting for.
#[derive(Debug, Clone, Copy, PartialEq, Eq, Structural)]
pub enum PointStage {
    Ssid,
    Strength,
    WpaFlags,
    RsnFlags,
}

/// The reading of one access point, part of the way through.
#[derive(Debug)]
pub struct PointReader {
    path: String,
    ssid: Vec<u8>,
    strength: u8,
    wpa_flags: u32,
    stage: PointStage,
}

/// The mathematical content of a [`PointReader`]: the path, what has been
/// read so far, and what is being waited for.
pub struct PointReaderView {
    pub path: Seq<char>,
    pub ssid: Seq<u8>,
    pub strength: u8,
    pub wpa_flags: u32,
    pub stage: PointStage,
}

impl View for PointReader {
    type V = PointReaderView;

    closed spec fn view(&self) -> PointReaderView {
        PointReaderView {
            path: self.path@,
            ssid: self.ssid@,
            strength: self.strength,
            wpa_flags: self.wpa_flags,
            stage: self.stage,
        }
    }
}

/// What a reader does next: ask again, or end with its result.
#[derive(Debug)]
pub enum PointStep {
    Ask(PointReader, Request),
    Done(Result<AccessPoint, DecodeError>),
}

/// The mathematical content of a [`PointStep`].
pub enum PointStepView {
    Ask(PointReaderView, RequestView),
    Done(Result<AccessPointView, DecodeError>),
}

impl View for PointStep {
    type V = PointStepView;

    open spec fn view(&self) -> PointStepView {
        match self {
            PointStep::Ask(reader, request) => PointStepView::Ask(reader@, request@),
            PointStep::Done(result) => PointStepView::Done(decoding_view(*result)),
        }
    }
}

/// A reader that has read nothing yet.
pub open spec fn point_start(path: Seq<char>) -> PointReaderView {
    PointReaderView {
        path,
        ssid: Seq::empty(),
        strength: 0,
        wpa_flags: 0,
        stage: PointStage::Ssid,
    }
}

/// The question a reader is waiting to have answered.
pub open spec fn point_awaits(reader: PointReaderView) -> RequestView {
    match reader.stage {
        PointStage::Ssid => RequestView::Ssid(reader.path),
        PointStage::Strength => RequestView::Strength(reader.path),
        PointStage::WpaFlags => RequestView::WpaFlags(reader.path),
        PointStage::RsnFlags => RequestView::RsnFlags(reader.path),
    }
}

/// A reader that has moved on to `stage`.
pub open spec fn point_asking(reader: PointReaderView, stage: PointStage) -> PointStepView {
    let next = PointReaderView { stage, ..reader };
    PointStepView::Ask(next, point_awaits(next))
}

/// What a reader does when its question is answered with `reply`.
pub open spec fn point_step(reader: PointReaderView, reply: ReplyView) -> PointStepView {
    match reader.stage {
        PointStage::Ssid => match reply {
            ReplyView::Bytes(bytes) => point_asking(
                PointReaderView { ssid: bytes, ..reader },
                PointStage::Strength,
            ),
            _ => PointStepView::Done(Err(DecodeError::MissingSsid)),
        },
        PointStage::Strength => match reply {
            ReplyView::Level(level) => point_asking(
                PointReaderView { strength: level, ..reader },
                PointStage::WpaFlags,
            ),
            _ => PointStepView::Done(Err(DecodeError::MissingStrength)),
        },
        PointStage::WpaFlags => point_asking(
            PointReaderView { wpa_flags: number_or_zero(reply), ..reader },
            PointStage::RsnFlags,
        ),
        PointStage::RsnFlags => PointStepView::Done(
            decoded(
                reader.path,
                Some(reader.ssid),
                Some(reader.strength),
                Some(reader.wpa_flags),
                Some(number_or_zero(reply)),
            ),
        ),
    }
}

/// How many questions a reader at this stage has still to ask.
pub open spec fn point_questions(stage: PointStage) -> nat {
    match stage {
        PointStage::Ssid => 4,
        PointStage::Strength => 3,
        PointStage::WpaFlags => 2,
        PointStage::RsnFlags => 1,
    }
}

/// What a reader ends with when `service` answers its questions.
pub open spec fn point_finish(service: Service, reader: PointReaderView) -> Result<
    AccessPointView,
    DecodeError,
>
    decreases point_questions(reader.stage),
{
    match point_step(reader, service(point_awaits(reader))) {
        PointStepView::Ask(next, _) => point_finish(service, next),
        PointStepView::Done(result) => result,
    }
}

/// The bytes a reply carries, if it carries bytes.
pub open spec fn bytes_of(reply: ReplyView) -> Option<Seq<u8>> {
    match reply {
        ReplyView::Bytes(bytes) => Some(bytes),
        _ => None,
    }
}

/// The signal strength a reply carries, if it carries one.
pub open spec fn level_of(reply: ReplyView) -> Option<u8> {
    match reply {
        ReplyView::Level(level) => Some(level),
        _ => None,
    }
}

/// The number a reply carries, if it carries one.
pub open spec fn number_of(reply: ReplyView) -> Option<u32> {
    match reply {
        ReplyView::Number(number) => Some(number),
        _ => None,
    }
}

/// The access point at `path` as `service` describes it.
pub open spec fn read_point(service: Service, path: Seq<char>) -> Result<
    AccessPointView,
    DecodeError,
> {
    decoded(
        path,
        bytes_of(service(RequestView::Ssid(path))),
        level_of(service(RequestView::Strength(path))),
        number_of(service(RequestView::WpaFlags(path))),
        number_of(service(RequestView::RsnFlags(path))),
    )
}

/// A reader that is answered by a service ends with the access point as the
/// service describes it.
pub proof fn lemma_point_reader_reads(service: Service, path: Seq<char>)
    ensures
        point_finish(service, point_start(path)) == read_point(service, path),
{
    reveal_with_fuel(point_finish, 5);
}

impl PointReader {
    /// Begins to read the access point at `path`; the first question is for
    /// its network name.
    pub fn start(path: String) -> (out: (PointReader, Request))
        ensures
            out.0@ == point_start(path@),
            out.1@ == point_awaits(out.0@),
    {
        let request = Request::Ssid(path.clone());
        (
            PointReader {
                path,
                ssid: Vec::new(),
                strength: 0,
                wpa_flags: 0,
                stage: PointStage::Ssid,
            },
            request,
        )
    }

    /// Takes the answer to the question that was asked last.
    pub fn step(self, reply: Reply) -> (out: PointStep)
        ensures
            out@ == point_step(self@, reply@),
    {
        let PointReader { path, ssid, strength, wpa_flags, stage } = self;
        match stage {
            PointStage::Ssid => match reply {
                Reply::Bytes(bytes) => {
                    let request = Request::Strength(path.clone());
                    PointStep::Ask(
                        PointReader {
                            path,
                            ssid: bytes,
                            strength,
                            wpa_flags,
                            stage: PointStage::Strength,
                        },
                        request,
                    )
                },
                _ => PointStep::Done(Err(DecodeError::MissingSsid)),
            },
            PointStage::Strength => match reply {
                Reply::Level(level) => {
                    let request = Request::WpaFlags(path.clone());
                    PointStep::Ask(
                        PointReader {
                            path,
                            ssid,
                            strength: level,
                            wpa_flags,
                            stage: PointStage::WpaFlags,
                        },
                        request,
                    )
                },
                _ => PointStep::Done(Err(DecodeError::MissingStrength)),
            },
            PointStage::WpaFlags => {
                let read = match reply {
                    Reply::Number(number) => number,
                    _ => 0,
                };
                let request = Request::RsnFlags(path.clone());
                PointStep::Ask(
                    PointReader {
                        path,
                        ssid,
                        strength,
                        wpa_flags: read,
                        stage: PointStage::RsnFlags,
                    },
                    request,
                )
            },
            PointStage::RsnFlags => {
                let read = match reply {
                    Reply::Number(number) => number,
                    _ => 0,
                };
                PointStep::Done(
                    decode_access_point(path, Some(ssid), Some(strength), Some(wpa_flags), Some(read)),
                )
            },
        }
    }
}

} // verus!
