//! The vocabulary between the client's logic and whoever carries its
//! questions to the network-management service.
//!
//! The logic never touches the bus. It hands out a [`Request`], one method
//! call or one property read on one remote object, and is handed back the
//! [`Reply`]. Remote objects are named by their object paths; the path `/`
//! stands for "no object".

use vstd::prelude::*;

verus! {

/// Device-type code of a wireless device.
pub const WIRELESS_DEVICE: u32 = 2;

/// One question to the service. Each carries the path of the object asked.
#[derive(Debug, Clone, PartialEq, Eq)]
pub enum Request {
    /// The manager's list of devices.
    Devices,
    /// A device's type code.
    DeviceType(String),
    /// A device's interface name.
    Interface(String),
    /// A device's IPv4 configuration object.
    Ip4Config(String),
    /// Take a device off its network.
    Disconnect(String),
    /// Ask a wireless device to scan, with no options.
    RequestScan(String),
    /// The access points a wireless device knows of.
    AccessPoints(String),
    /// The access point a wireless device is associated with.
    ActiveAccessPoint(String),
    /// An access point's network name, as raw bytes.
    Ssid(String),
    /// An access point's signal strength.
    Strength(String),
    /// An access point's WPA capability flags.
    WpaFlags(String),
    /// An access point's RSN capability flags.
    RsnFlags(String),
    /// An IPv4 configuration's address records.
    AddressData(String),
}

/// The mathematical content of a [`Request`].
pub enum RequestView {
    Devices,
    DeviceType(Seq<char>),
    Interface(Seq<char>),
    Ip4Config(Seq<char>),
    Disconnect(Seq<char>),
    RequestScan(Seq<char>),
    AccessPoints(Seq<char>),
    ActiveAccessPoint(Seq<char>),
    Ssid(Seq<char>),
    Strength(Seq<char>),
    WpaFlags(Seq<char>),
    RsnFlags(Seq<char>),
    AddressData(Seq<char>),
}

impl View for Request {
    type V = RequestView;

    open spec fn view(&self) -> RequestView {
        match self {
            Request::Devices => RequestView::Devices,
            Request::DeviceType(path) => RequestView::DeviceType(path@),
            Request::Interface(path) => RequestView::Interface(path@),
            Request::Ip4Config(path) => RequestView::Ip4Config(path@),
            Request::Disconnect(path) => RequestView::Disconnect(path@),
            Request::RequestScan(path) => RequestView::RequestScan(path@),
            Request::AccessPoints(path) => RequestView::AccessPoints(path@),
            Request::ActiveAccessPoint(path) => RequestView::ActiveAccessPoint(path@),
            Request::Ssid(path) => RequestView::Ssid(path@),
            Request::Strength(path) => RequestView::Strength(path@),
            Request::WpaFlags(path) => RequestView::WpaFlags(path@),
            Request::RsnFlags(path) => RequestView::RsnFlags(path@),
            Request::AddressData(path) => RequestView::AddressData(path@),
        }
    }
}

/// The value of one entry of a property map, as far as the client reads it.
#[derive(Debug, Clone, PartialEq, Eq)]
pub enum Value {
    /// A text value.
    Text(String),
    /// A value of any other type.
    Other,
}

/// The mathematical content of a [`Value`].
pub enum ValueView {
    Text(Seq<char>),
    Other,
}

impl View for Value {
    type V = ValueView;

    open spec fn view(&self) -> ValueView {
        match self {
            Value::Text(text) => ValueView::Text(text@),
            Value::Other => ValueView::Other,
        }
    }
}

impl DeepView for Value {
    type V = ValueView;

    open spec fn deep_view(&self) -> ValueView {
        self@
    }
}

/// One entry of a property map.
#[derive(Debug, Clone, PartialEq, Eq)]
pub struct Property {
    pub key: String,
    pub value: Value,
}

/// The mathematical content of a [`Property`].
pub struct PropertyView {
    pub key: Seq<char>,
    pub value: ValueView,
}

impl View for Property {
    type V = PropertyView;

    open spec fn view(&self) -> PropertyView {
        PropertyView { key: self.key@, value: self.value@ }
    }
}

impl DeepView for Property {
    type V = PropertyView;

    open spec fn deep_view(&self) -> PropertyView {
        self@
    }
}

/// What came back for a [`Request`].
#[derive(Debug, Clone, PartialEq, Eq)]
pub enum Reply {
    /// The call or the property read failed; with the carrier's message.
    Failed(String),
    /// A call that returns nothing went through.
    Done,
    /// A 32-bit number: a type code or a set of flags.
    Number(u32),
    /// A signal strength.
    Level(u8),
    /// Raw bytes.
    Bytes(Vec<u8>),
    /// A text.
    Text(String),
    /// One object path.
    Path(String),
    /// A list of object paths.
    Paths(Vec<String>),
    /// A list of property maps.
    Records(Vec<Vec<Property>>),
}

/// The mathematical content of a [`Reply`].
pub enum ReplyView {
    Failed(Seq<char>),
    Done,
    Number(u32),
    Level(u8),
    Bytes(Seq<u8>),
    Text(Seq<char>),
    Path(Seq<char>),
    Paths(Seq<Seq<char>>),
    Records(Seq<Seq<PropertyView>>),
}

impl View for Reply {
    type V = ReplyView;

    open spec fn view(&self) -> ReplyView {
        match self {
            Reply::Failed(message) => ReplyView::Failed(message@),
            Reply::Done => ReplyView::Done,
            Reply::Number(number) => ReplyView::Number(*number),
            Reply::Level(level) => ReplyView::Level(*level),
            Reply::Bytes(bytes) => ReplyView::Bytes(bytes@),
            Reply::Text(text) => ReplyView::Text(text@),
            Reply::Path(path) => ReplyView::Path(path@),
            Reply::Paths(paths) => ReplyView::Paths(paths.deep_view()),
            Reply::Records(records) => ReplyView::Records(records.deep_view()),
        }
    }
}

/// Why an operation of the client came to nothing.
#[derive(Debug, Clone, PartialEq, Eq)]
pub enum ClientError {
    /// The service failed a call that the operation cannot do without; with
    /// the carrier's message.
    Bus(String),
    /// Such a call was answered with a reply of the wrong kind.
    Unexpected,
    /// No device carries the interface name that was given.
    DeviceNotFound(String),
    /// The helper that joins a network could not be started; with the
    /// system's message.
    Launch(String),
}

/// The mathematical content of a [`ClientError`].
pub enum ClientErrorView {
    Bus(Seq<char>),
    Unexpected,
    DeviceNotFound(Seq<char>),
    Launch(Seq<char>),
}

impl View for ClientError {
    type V = ClientErrorView;

    open spec fn view(&self) -> ClientErrorView {
        match self {
            ClientError::Bus(message) => ClientErrorView::Bus(message@),
            ClientError::Unexpected => ClientErrorView::Unexpected,
            ClientError::DeviceNotFound(interface) => ClientErrorView::DeviceNotFound(interface@),
            ClientError::Launch(message) => ClientErrorView::Launch(message@),
        }
    }
}

/// A service that answers each question the same way whenever it is asked.
pub type Service = spec_fn(RequestView) -> ReplyView;

/// The number a reply carries; zero where it carries none.
pub open spec fn number_or_zero(reply: ReplyView) -> u32 {
    match reply {
        ReplyView::Number(number) => number,
        _ => 0,
    }
}

/// The error that stands for a failed call the operation cannot do without.
pub open spec fn failure(reply: ReplyView) -> ClientErrorView {
    match reply {
        ReplyView::Failed(message) => ClientErrorView::Bus(message),
        _ => ClientErrorView::Unexpected,
    }
}

/// Whether a reply is the type code of a wireless device.
pub open spec fn tells_wireless(reply: ReplyView) -> bool {
    reply == ReplyView::Number(WIRELESS_DEVICE)
}

/// Whether `service` gives the device the type code of a wireless device. A
/// device whose type cannot be read is not wireless.
pub open spec fn is_wireless(service: Service, device: Seq<char>) -> bool {
    tells_wireless(service(RequestView::DeviceType(device)))
}

/// The path a reply carries, unless it carries none or the path that stands
/// for "no object".
pub open spec fn object_of(reply: ReplyView) -> Option<Seq<char>> {
    match reply {
        ReplyView::Path(path) => if path == no_object() {
            None
        } else {
            Some(path)
        },
        _ => None,
    }
}

/// The path that stands for "no object".
pub open spec fn no_object() -> Seq<char> {
    "/"@
}

/// Brings a list into the order in which its items are taken from the back.
pub fn into_queue(list: Vec<String>) -> (queue: Vec<String>)
    ensures
        queue.deep_view() == list.deep_view().reverse(),
{
    let mut list = list;
    let ghost whole = list.deep_view();
    let mut queue: Vec<String> = Vec::new();
    while list.len() > 0
        invariant
            list.len() <= whole.len(),
            list.deep_view() == whole.take(list.len() as int),
            queue.deep_view() == whole.skip(list.len() as int).reverse(),
        decreases list.len(),
    {
        let ghost shorter = list.len() - 1;
        let ghost taken = queue.deep_view();
        let ghost left = list.deep_view();
        let item = list.pop().unwrap();
        queue.push(item);
        proof {
            assert(item@ == left[shorter]);
            assert(list.deep_view() =~= whole.take(shorter));
            let turned = whole.skip(shorter).reverse();
            assert(taken.len() == whole.skip(shorter + 1).len());
            assert(queue.deep_view().len() == taken.len() + 1);
            assert(turned.len() == whole.skip(shorter).len());
            assert forall|j: int| 0 <= j < turned.len() implies queue.deep_view()[j]
                == turned[j] by {
                if j < taken.len() {
                    assert(queue.deep_view()[j] == taken[j]);
                }
            }
            assert(queue.deep_view() =~= turned);
        }
    }
    proof {
        assert(whole.skip(0) =~= whole);
    }
    queue
}

/// Taking from the back of a queue takes from the front of what it stands for.
pub proof fn lemma_queue_pop<T>(queue: Seq<T>)
    requires
        queue.len() > 0,
    ensures
        queue.drop_last().reverse() == queue.reverse().drop_first(),
        queue.last() == queue.reverse().first(),
{
    assert(queue.drop_last().reverse() =~= queue.reverse().drop_first());
}

/// Tells whether a reply to a question for a device's type names a wireless device.
pub fn is_wireless_code(reply: &Reply) -> (wireless: bool)
    ensures
        wireless == tells_wireless(reply@),
{
    match reply {
        Reply::Number(code) => *code == WIRELESS_DEVICE,
        _ => false,
    }
}

/// Takes the object path out of a reply; `None` for a reply of another kind
/// and for the path that stands for "no object".
pub fn object_in(reply: Reply) -> (object: Option<String>)
    ensures
        match object {
            Some(path) => object_of(reply@) == Some(path@),
            None => object_of(reply@) is None,
        },
{
    match reply {
        Reply::Path(path) => {
            let nothing = "/".to_owned();
            if path == nothing {
                None
            } else {
                Some(path)
            }
        },
        _ => None,
    }
}

/// Tells a failed call's error from its reply.
pub fn failure_of(reply: Reply) -> (error: ClientError)
    ensures
        error@ == failure(reply@),
{
    match reply {
        Reply::Failed(message) => ClientError::Bus(message),
        _ => ClientError::Unexpected,
    }
}

} // verus!
