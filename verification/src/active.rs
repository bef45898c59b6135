//! Resolving the active connection.
//!
//! The devices are visited in the order the manager lists them, and the
//! first wireless device that is associated with an access point, and whose
//! interface name and access point can be read, is the answer. Its IPv4
//! address is looked up last and on a best-effort footing: whatever fails on
//! the way to it leaves the address empty and the answer standing.

use vstd::prelude::*;
use crate::access_point::{ActiveConnection, ActiveConnectionView};
use crate::bus::{
    failure, failure_of, into_queue, is_wireless, is_wireless_code, lemma_queue_pop, no_object,
    object_in, object_of, tells_wireless, ClientError, ClientErrorView, Property, PropertyView, Reply,
    ReplyView, Request, RequestView, Service, Value, ValueView,
};
use crate::decode::{
    lemma_point_reader_reads, point_awaits, point_finish, point_questions, point_start,
    point_step, read_point, PointReader, PointReaderView, PointStep, PointStepView,
};

verus! {

/// The value of the first entry of `record` under `key`.
pub open spec fn lookup(record: Seq<PropertyView>, key: Seq<char>) -> Option<ValueView>
    decreases record.len(),
{
    if record.len() == 0 {
        None
    } else if record.first().key == key {
        Some(record.first().value)
    } else {
        lookup(record.drop_first(), key)
    }
}

/// The key under which an address record holds the address.
pub open spec fn address_key() -> Seq<char> {
    "address"@
}

/// The address in the first of the records, if that record has one and it
/// is a text; empty otherwise.
pub open spec fn first_address(records: Seq<Seq<PropertyView>>) -> Seq<char> {
    if records.len() == 0 {
        Seq::empty()
    } else {
        match lookup(records.first(), address_key()) {
            Some(ValueView::Text(address)) => address,
            _ => Seq::empty(),
        }
    }
}

/// Finds the value of the first entry of `record` under `key`.
pub fn property<'a>(record: &'a Vec<Property>, key: &str) -> (found: Option<&'a Value>)
    ensures
        match found {
            Some(value) => lookup(record.deep_view(), key@) == Some(value@),
            None => lookup(record.deep_view(), key@) is None,
        },
{
    let wanted = key.to_owned();
    let mut i: usize = 0;
    proof {
        assert(record.deep_view().skip(0) =~= record.deep_view());
    }
    while i < record.len()
        invariant
            i <= record.len(),
            wanted@ == key@,
            lookup(record.deep_view(), key@) == lookup(record.deep_view().skip(i as int), key@),
        decreases record.len() - i,
    {
        let ghost rest = record.deep_view().skip(i as int);
        proof {
            assert(rest.first() == record@[i as int]@);
            assert(rest.drop_first() =~= record.deep_view().skip(i as int + 1));
        }
        if record[i].key == wanted {
            return Some(&record[i].value);
        }
        i += 1;
    }
    proof {
        assert(record.deep_view().skip(i as int).len() == 0);
    }
    None
}

/// Picks the address out of an IPv4 configuration's address records.
pub fn address_in(records: &Vec<Vec<Property>>) -> (address: String)
    ensures
        address@ == first_address(records.deep_view()),
{
    if records.len() == 0 {
        return String::new();
    }
    assert(records.deep_view().first() == records@[0].deep_view());
    match property(&records[0], "address") {
        Some(Value::Text(address)) => address.clone(),
        _ => String::new(),
    }
}

/// What a resolver is waiting for.
#[derive(Debug)]
enum ResolveStage {
    Devices,
    DeviceType(String),
    ActivePoint(String),
    Interface(String, String),
    Point(String, String, PointReader),
    Config(String, ActiveConnection),
    Data(String, ActiveConnection),
}

/// The search for the active connection, part of the way through.
#[derive(Debug)]
pub struct Resolve {
    /// Devices still to visit, the next one last.
    devices: Vec<String>,
    stage: ResolveStage,
}

/// What a resolver is waiting for. Of the device it is visiting: its type;
/// its active access point; its interface name, with the access point's
/// path at hand; a property of that access point, with device and interface
/// name at hand. Of the connection it has found: the device's IPv4
/// configuration; that configuration's address records.
pub enum ResolveStageView {
    Devices,
    DeviceType(Seq<char>),
    ActivePoint(Seq<char>),
    Interface(Seq<char>, Seq<char>),
    Point(Seq<char>, Seq<char>, PointReaderView),
    Config(Seq<char>, ActiveConnectionView),
    Data(Seq<char>, ActiveConnectionView),
}

/// The mathematical content of a [`Resolve`]: the devices still to come, in
/// visiting order, and what is being waited for.
pub struct ResolveView {
    pub devices: Seq<Seq<char>>,
    pub stage: ResolveStageView,
}

impl View for ResolveStage {
    type V = ResolveStageView;

    closed spec fn view(&self) -> ResolveStageView {
        match self {
            ResolveStage::Devices => ResolveStageView::Devices,
            ResolveStage::DeviceType(device) => ResolveStageView::DeviceType(device@),
            ResolveStage::ActivePoint(device) => ResolveStageView::ActivePoint(device@),
            ResolveStage::Interface(device, point) => ResolveStageView::Interface(
                device@,
                point@,
            ),
            ResolveStage::Point(device, interface, reader) => ResolveStageView::Point(
                device@,
                interface@,
                reader@,
            ),
            ResolveStage::Config(device, found) => ResolveStageView::Config(device@, found@),
            ResolveStage::Data(config, found) => ResolveStageView::Data(config@, found@),
        }
    }
}

impl View for Resolve {
    type V = ResolveView;

    closed spec fn view(&self) -> ResolveView {
        ResolveView { devices: self.devices.deep_view().reverse(), stage: self.stage@ }
    }
}

/// The outcome of the search.
pub type ResolveResult = Result<Option<ActiveConnection>, ClientError>;

/// The content of the search's outcome.
pub open spec fn resolve_result_view(result: ResolveResult) -> Result<
    Option<ActiveConnectionView>,
    ClientErrorView,
> {
    match result {
        Ok(Some(found)) => Ok(Some(found@)),
        Ok(None) => Ok(None),
        Err(error) => Err(error@),
    }
}

/// What a resolver does next: ask again, or end with its outcome.
#[derive(Debug)]
pub enum ResolveStep {
    Ask(Resolve, Request),
    Done(ResolveResult),
}

/// The mathematical content of a [`ResolveStep`].
pub enum ResolveStepView {
    Ask(ResolveView, RequestView),
    Done(Result<Option<ActiveConnectionView>, ClientErrorView>),
}

impl View for ResolveStep {
    type V = ResolveStepView;

    open spec fn view(&self) -> ResolveStepView {
        match self {
            ResolveStep::Ask(resolve, request) => ResolveStepView::Ask(resolve@, request@),
            ResolveStep::Done(result) => ResolveStepView::Done(resolve_result_view(*result)),
        }
    }
}

/// A resolver that has asked nothing yet.
pub open spec fn resolve_start() -> ResolveView {
    ResolveView { devices: Seq::empty(), stage: ResolveStageView::Devices }
}

/// The question a resolver is waiting to have answered.
pub open spec fn resolve_awaits(resolve: ResolveView) -> RequestView {
    match resolve.stage {
        ResolveStageView::Devices => RequestView::Devices,
        ResolveStageView::DeviceType(device) => RequestView::DeviceType(device),
        ResolveStageView::ActivePoint(device) => RequestView::ActiveAccessPoint(device),
        ResolveStageView::Interface(device, _) => RequestView::Interface(device),
        ResolveStageView::Point(_, _, reader) => point_awaits(reader),
        ResolveStageView::Config(device, _) => RequestView::Ip4Config(device),
        ResolveStageView::Data(config, _) => RequestView::AddressData(config),
    }
}

/// A resolver in the given state, with the question that state waits for.
pub open spec fn resolve_asking(resolve: ResolveView) -> ResolveStepView {
    ResolveStepView::Ask(resolve, resolve_awaits(resolve))
}

/// On to the next device, or to the end, empty-handed, when none is left.
pub open spec fn resolve_next_device(devices: Seq<Seq<char>>) -> ResolveStepView {
    if devices.len() == 0 {
        ResolveStepView::Done(Ok(None))
    } else {
        resolve_asking(
            ResolveView {
                devices: devices.drop_first(),
                stage: ResolveStageView::DeviceType(devices.first()),
            },
        )
    }
}

/// What a resolver does when its question is answered with `reply`.
pub open spec fn resolve_step(resolve: ResolveView, reply: ReplyView) -> ResolveStepView {
    let devices = resolve.devices;
    match resolve.stage {
        ResolveStageView::Devices => match reply {
            ReplyView::Paths(listed) => resolve_next_device(listed),
            _ => ResolveStepView::Done(Err(failure(reply))),
        },
        ResolveStageView::DeviceType(device) => if tells_wireless(reply) {
            resolve_asking(ResolveView { devices, stage: ResolveStageView::ActivePoint(device) })
        } else {
            resolve_next_device(devices)
        },
        ResolveStageView::ActivePoint(device) => match object_of(reply) {
            Some(point) => resolve_asking(
                ResolveView { devices, stage: ResolveStageView::Interface(device, point) },
            ),
            None => resolve_next_device(devices),
        },
        ResolveStageView::Interface(device, point) => match reply {
            ReplyView::Text(interface) => resolve_asking(
                ResolveView {
                    devices,
                    stage: ResolveStageView::Point(device, interface, point_start(point)),
                },
            ),
            _ => resolve_next_device(devices),
        },
        ResolveStageView::Point(device, interface, reader) => match point_step(reader, reply) {
            PointStepView::Ask(next, _) => resolve_asking(
                ResolveView { devices, stage: ResolveStageView::Point(device, interface, next) },
            ),
            PointStepView::Done(Ok(ap)) => resolve_asking(
                ResolveView {
                    devices,
                    stage: ResolveStageView::Config(
                        device,
                        ActiveConnectionView {
                            ssid: ap.ssid,
                            strength: ap.strength,
                            interface,
                            ip_address: Seq::empty(),
                        },
                    ),
                },
            ),
            PointStepView::Done(Err(_)) => resolve_next_device(devices),
        },
        ResolveStageView::Config(_, found) => match object_of(reply) {
            Some(config) => resolve_asking(
                ResolveView { devices, stage: ResolveStageView::Data(config, found) },
            ),
            None => ResolveStepView::Done(Ok(Some(found))),
        },
        ResolveStageView::Data(_, found) => match reply {
            ReplyView::Records(records) => ResolveStepView::Done(
                Ok(Some(ActiveConnectionView { ip_address: first_address(records), ..found })),
            ),
            _ => ResolveStepView::Done(Ok(Some(found))),
        },
    }
}

/// How far a stage is from the end of its device's visit.
pub open spec fn resolve_stage_rank(stage: ResolveStageView) -> nat {
    match stage {
        ResolveStageView::Devices => 7,
        ResolveStageView::DeviceType(_) => 6,
        ResolveStageView::ActivePoint(_) => 5,
        ResolveStageView::Interface(_, _) => 4,
        ResolveStageView::Point(_, _, _) => 3,
        ResolveStageView::Config(_, _) => 2,
        ResolveStageView::Data(_, _) => 1,
    }
}

/// Whether the resolver has yet to learn the devices.
pub open spec fn resolve_unlisted(stage: ResolveStageView) -> nat {
    match stage {
        ResolveStageView::Devices => 1,
        _ => 0,
    }
}

/// How many questions the reader of the access point has still to ask.
pub open spec fn resolve_reader_questions(stage: ResolveStageView) -> nat {
    match stage {
        ResolveStageView::Point(_, _, reader) => point_questions(reader.stage),
        _ => 0,
    }
}

/// What a resolver ends with when `service` answers its questions.
pub open spec fn resolve_finish(service: Service, resolve: ResolveView) -> Result<
    Option<ActiveConnectionView>,
    ClientErrorView,
>
    decreases
        resolve_unlisted(resolve.stage),
        resolve.devices.len(),
        resolve_stage_rank(resolve.stage),
        resolve_reader_questions(resolve.stage),
{
    match resolve_step(resolve, service(resolve_awaits(resolve))) {
        ResolveStepView::Ask(next, _) => resolve_finish(service, next),
        ResolveStepView::Done(result) => result,
    }
}

/// The device's first IPv4 address as `service` gives it; empty where the
/// device has no configuration or anything on the way cannot be read.
pub open spec fn address_of(service: Service, device: Seq<char>) -> Seq<char> {
    match object_of(service(RequestView::Ip4Config(device))) {
        Some(config) => match service(RequestView::AddressData(config)) {
            ReplyView::Records(records) => first_address(records),
            _ => Seq::empty(),
        },
        None => Seq::empty(),
    }
}

/// The connection of a device and interface name, once the access point
/// has been read: none if it could not be read.
pub open spec fn on_point(
    service: Service,
    device: Seq<char>,
    interface: Seq<char>,
    read: Result<crate::access_point::AccessPointView, crate::decode::DecodeError>,
) -> Option<ActiveConnectionView> {
    match read {
        Ok(ap) => Some(
            ActiveConnectionView {
                ssid: ap.ssid,
                strength: ap.strength,
                interface,
                ip_address: address_of(service, device),
            },
        ),
        Err(_) => None,
    }
}

/// The connection of a device associated with the access point at `point`:
/// none if its interface name or the access point cannot be read.
pub open spec fn on_interface(service: Service, device: Seq<char>, point: Seq<char>) -> Option<
    ActiveConnectionView,
> {
    match service(RequestView::Interface(device)) {
        ReplyView::Text(interface) => on_point(
            service,
            device,
            interface,
            read_point(service, point),
        ),
        _ => None,
    }
}

/// The connection of a wireless device: none if it is associated with no
/// access point, or if that cannot be read.
pub open spec fn on_association(service: Service, device: Seq<char>) -> Option<
    ActiveConnectionView,
> {
    match object_of(service(RequestView::ActiveAccessPoint(device))) {
        Some(point) => on_interface(service, device, point),
        None => None,
    }
}

/// The connection that `service` shows on one device: the device is
/// wireless and associated, and its interface name and access point can be
/// read.
pub open spec fn active_on(service: Service, device: Seq<char>) -> Option<ActiveConnectionView> {
    if is_wireless(service, device) {
        on_association(service, device)
    } else {
        None
    }
}

/// The connection on the first of the devices that shows one.
pub open spec fn first_active(service: Service, devices: Seq<Seq<char>>) -> Option<
    ActiveConnectionView,
>
    decreases devices.len(),
{
    if devices.len() == 0 {
        None
    } else {
        match active_on(service, devices.first()) {
            Some(found) => Some(found),
            None => first_active(service, devices.drop_first()),
        }
    }
}

/// The outcome of resolving against `service`: the first device's
/// connection, none if no device shows one, or the error of the device list.
pub open spec fn resolve_all(service: Service) -> Result<
    Option<ActiveConnectionView>,
    ClientErrorView,
> {
    match service(RequestView::Devices) {
        ReplyView::Paths(devices) => Ok(first_active(service, devices)),
        other => Err(failure(other)),
    }
}

/// The connection found on the device being visited or, failing that, on
/// the first of the remaining devices that shows one.
pub open spec fn or_later(
    service: Service,
    found: Option<ActiveConnectionView>,
    devices: Seq<Seq<char>>,
) -> Option<ActiveConnectionView> {
    match found {
        Some(found) => Some(found),
        None => first_active(service, devices),
    }
}

/// The connection with the address that the records at `config` hold, as
/// `service` gives them; as it is if they cannot be read.
pub open spec fn with_address_at(
    service: Service,
    config: Seq<char>,
    found: ActiveConnectionView,
) -> ActiveConnectionView {
    match service(RequestView::AddressData(config)) {
        ReplyView::Records(records) => ActiveConnectionView {
            ip_address: first_address(records),
            ..found
        },
        _ => found,
    }
}

/// What a resolver under way will find.
pub open spec fn resolve_pending(service: Service, resolve: ResolveView) -> Option<
    ActiveConnectionView,
> {
    let devices = resolve.devices;
    match resolve.stage {
        ResolveStageView::Devices => None,
        ResolveStageView::DeviceType(device) => or_later(
            service,
            active_on(service, device),
            devices,
        ),
        ResolveStageView::ActivePoint(device) => or_later(
            service,
            on_association(service, device),
            devices,
        ),
        ResolveStageView::Interface(device, point) => or_later(
            service,
            on_interface(service, device, point),
            devices,
        ),
        ResolveStageView::Point(device, interface, reader) => or_later(
            service,
            on_point(service, device, interface, point_finish(service, reader)),
            devices,
        ),
        ResolveStageView::Config(device, found) => Some(
            match object_of(service(RequestView::Ip4Config(device))) {
                Some(config) => with_address_at(service, config, found),
                None => found,
            },
        ),
        ResolveStageView::Data(config, found) => Some(with_address_at(service, config, found)),
    }
}

/// What a step leads to when `service` answers from then on.
pub open spec fn resolve_step_finish(service: Service, step: ResolveStepView) -> Result<
    Option<ActiveConnectionView>,
    ClientErrorView,
> {
    match step {
        ResolveStepView::Ask(next, _) => resolve_finish(service, next),
        ResolveStepView::Done(result) => result,
    }
}

/// From a device's end the resolver ends with what the remaining devices show.
pub proof fn lemma_resolve_next_device(service: Service, devices: Seq<Seq<char>>)
    ensures
        resolve_step_finish(service, resolve_next_device(devices)) == Ok::<
            Option<ActiveConnectionView>,
            ClientErrorView,
        >(first_active(service, devices)),
    decreases 0nat, devices.len(), 0nat, 0nat,
{
    if devices.len() > 0 {
        lemma_resolve_under_way(
            service,
            ResolveView {
                devices: devices.drop_first(),
                stage: ResolveStageView::DeviceType(devices.first()),
            },
        );
    }
}

/// A resolver under way ends with what it will find.
pub proof fn lemma_resolve_under_way(service: Service, resolve: ResolveView)
    requires
        !(resolve.stage is Devices),
    ensures
        resolve_finish(service, resolve) == Ok::<Option<ActiveConnectionView>, ClientErrorView>(
            resolve_pending(service, resolve),
        ),
    decreases
        0nat,
        resolve.devices.len(),
        resolve_stage_rank(resolve.stage),
        resolve_reader_questions(resolve.stage),
{
    let devices = resolve.devices;
    let reply = service(resolve_awaits(resolve));
    match resolve.stage {
        ResolveStageView::Devices => {},
        ResolveStageView::DeviceType(device) => {
            if tells_wireless(reply) {
                lemma_resolve_under_way(
                    service,
                    ResolveView { devices, stage: ResolveStageView::ActivePoint(device) },
                );
            } else {
                lemma_resolve_next_device(service, devices);
            }
        },
        ResolveStageView::ActivePoint(device) => {
            match object_of(reply) {
                Some(point) => {
                    lemma_resolve_under_way(
                        service,
                        ResolveView { devices, stage: ResolveStageView::Interface(device, point) },
                    );
                },
                None => {
                    lemma_resolve_next_device(service, devices);
                },
            }
        },
        ResolveStageView::Interface(device, point) => {
            match reply {
                ReplyView::Text(interface) => {
                    lemma_resolve_under_way(
                        service,
                        ResolveView {
                            devices,
                            stage: ResolveStageView::Point(device, interface, point_start(point)),
                        },
                    );
                    lemma_point_reader_reads(service, point);
                },
                _ => {
                    lemma_resolve_next_device(service, devices);
                },
            }
        },
        ResolveStageView::Point(device, interface, reader) => {
            match point_step(reader, reply) {
                PointStepView::Ask(next, _) => {
                    lemma_resolve_under_way(
                        service,
                        ResolveView {
                            devices,
                            stage: ResolveStageView::Point(device, interface, next),
                        },
                    );
                },
                PointStepView::Done(Ok(ap)) => {
                    lemma_resolve_under_way(
                        service,
                        ResolveView {
                            devices,
                            stage: ResolveStageView::Config(
                                device,
                                ActiveConnectionView {
                                    ssid: ap.ssid,
                                    strength: ap.strength,
                                    interface,
                                    ip_address: Seq::empty(),
                                },
                            ),
                        },
                    );
                },
                PointStepView::Done(Err(_)) => {
                    lemma_resolve_next_device(service, devices);
                },
            }
        },
        ResolveStageView::Config(_, found) => {
            match object_of(reply) {
                Some(config) => {
                    lemma_resolve_under_way(
                        service,
                        ResolveView { devices, stage: ResolveStageView::Data(config, found) },
                    );
                },
                None => {},
            }
        },
        ResolveStageView::Data(_, _) => {},
    }
}

/// A resolver that is answered by a service ends with the connection on
/// the first device that shows one, with none if no device does, or with
/// the error of the device list.
pub proof fn lemma_resolve_resolves(service: Service)
    ensures
        resolve_finish(service, resolve_start()) == resolve_all(service),
{
    match service(RequestView::Devices) {
        ReplyView::Paths(devices) => {
            lemma_resolve_next_device(service, devices);
        },
        _ => {},
    }
}

/// Where every wireless device is associated with no access point, there
/// is no active connection.
pub proof fn lemma_no_association_no_connection(service: Service, devices: Seq<Seq<char>>)
    requires
        service(RequestView::Devices) == ReplyView::Paths(devices),
        forall|i: int|
            0 <= i < devices.len() && is_wireless(service, #[trigger] devices[i]) ==> service(
                RequestView::ActiveAccessPoint(devices[i]),
            ) == ReplyView::Path(no_object()),
    ensures
        resolve_all(service) == Ok::<Option<ActiveConnectionView>, ClientErrorView>(None),
        resolve_finish(service, resolve_start()) == Ok::<
            Option<ActiveConnectionView>,
            ClientErrorView,
        >(None),
{
    lemma_none_active(service, devices);
    lemma_resolve_resolves(service);
}

/// Where no device shows a connection, none is found.
pub proof fn lemma_none_active(service: Service, devices: Seq<Seq<char>>)
    requires
        forall|i: int|
            0 <= i < devices.len() ==> active_on(service, #[trigger] devices[i]) is None,
    ensures
        first_active(service, devices) is None,
    decreases devices.len(),
{
    if devices.len() > 0 {
        assert(active_on(service, devices[0]) is None);
        let rest = devices.drop_first();
        assert forall|i: int| 0 <= i < rest.len() implies active_on(
            service,
            #[trigger] rest[i],
        ) is None by {
            assert(rest[i] == devices[i + 1]);
        }
        lemma_none_active(service, rest);
    }
}

/// The first device that shows a connection decides, whatever the devices
/// after it show.
pub proof fn lemma_first_active_wins(service: Service, devices: Seq<Seq<char>>, at: int)
    requires
        0 <= at < devices.len(),
        active_on(service, devices[at]) is Some,
        forall|i: int| 0 <= i < at ==> active_on(service, #[trigger] devices[i]) is None,
    ensures
        first_active(service, devices) == active_on(service, devices[at]),
    decreases devices.len(),
{
    if at > 0 {
        assert(active_on(service, devices[0]) is None);
        let rest = devices.drop_first();
        assert forall|i: int| 0 <= i < at - 1 implies active_on(
            service,
            #[trigger] rest[i],
        ) is None by {
            assert(rest[i] == devices[i + 1]);
        }
        assert(rest[at - 1] == devices[at]);
        lemma_first_active_wins(service, rest, at - 1);
    }
}

/// Whether a device shows a connection does not depend on its IPv4
/// configuration, and the address shown is the one the configuration gives.
pub proof fn lemma_address_is_optional(service: Service, device: Seq<char>)
    ensures
        active_on(service, device) is Some <==> {
            &&& is_wireless(service, device)
            &&& object_of(service(RequestView::ActiveAccessPoint(device))) matches Some(point)
            &&& service(RequestView::Interface(device)) is Text
            &&& read_point(service, point) is Ok
        },
        active_on(service, device) matches Some(found) ==> found.ip_address == address_of(
            service,
            device,
        ),
{
}

/// A missing IPv4 configuration is no error: the first device that is
/// wireless and associated, and whose interface name and access point can
/// be read, is the active connection, and where its configuration is the
/// path for "no object" or cannot be read, its address is empty.
pub proof fn lemma_connection_without_configuration(
    service: Service,
    devices: Seq<Seq<char>>,
    at: int,
    point: Seq<char>,
    interface: Seq<char>,
    ap: crate::access_point::AccessPointView,
)
    requires
        service(RequestView::Devices) == ReplyView::Paths(devices),
        0 <= at < devices.len(),
        forall|i: int| 0 <= i < at ==> active_on(service, #[trigger] devices[i]) is None,
        is_wireless(service, devices[at]),
        object_of(service(RequestView::ActiveAccessPoint(devices[at]))) == Some(point),
        service(RequestView::Interface(devices[at])) == ReplyView::Text(interface),
        read_point(service, point) == Ok::<
            crate::access_point::AccessPointView,
            crate::decode::DecodeError,
        >(ap),
        object_of(service(RequestView::Ip4Config(devices[at]))) is None,
    ensures
        resolve_finish(service, resolve_start()) == Ok::<
            Option<ActiveConnectionView>,
            ClientErrorView,
        >(
            Some(
                ActiveConnectionView {
                    ssid: ap.ssid,
                    strength: ap.strength,
                    interface,
                    ip_address: Seq::empty(),
                },
            ),
        ),
{
    lemma_first_active_wins(service, devices, at);
    lemma_resolve_resolves(service);
}

impl Resolve {
    /// Begins the search; the first question is for the manager's devices.
    pub fn start() -> (out: (Resolve, Request))
        ensures
            out.0@ == resolve_start(),
            out.1@ == resolve_awaits(out.0@),
    {
        let resolve = Resolve { devices: Vec::new(), stage: ResolveStage::Devices };
        proof {
            assert(resolve.devices.deep_view().reverse() =~= Seq::empty());
        }
        (resolve, Request::Devices)
    }

    fn next_device(devices: Vec<String>) -> (out: ResolveStep)
        ensures
            out@ == resolve_next_device(devices.deep_view().reverse()),
    {
        let mut devices = devices;
        let ghost queue = devices.deep_view();
        match devices.pop() {
            None => ResolveStep::Done(Ok(None)),
            Some(device) => {
                proof {
                    lemma_queue_pop(queue);
                    assert(devices.deep_view() =~= queue.drop_last());
                    assert(device@ == queue.last());
                }
                let request = Request::DeviceType(device.clone());
                ResolveStep::Ask(
                    Resolve { devices, stage: ResolveStage::DeviceType(device) },
                    request,
                )
            },
        }
    }

    /// Takes the answer to the question that was asked last.
    pub fn step(self, reply: Reply) -> (out: ResolveStep)
        ensures
            out@ == resolve_step(self@, reply@),
    {
        let Resolve { devices, stage } = self;
        match stage {
            ResolveStage::Devices => match reply {
                Reply::Paths(listed) => {
                    let queue = into_queue(listed);
                    proof {
                        assert(queue.deep_view().reverse() =~= listed.deep_view());
                    }
                    Resolve::next_device(queue)
                },
                other => ResolveStep::Done(Err(failure_of(other))),
            },
            ResolveStage::DeviceType(device) => {
                if is_wireless_code(&reply) {
                    let request = Request::ActiveAccessPoint(device.clone());
                    ResolveStep::Ask(
                        Resolve { devices, stage: ResolveStage::ActivePoint(device) },
                        request,
                    )
                } else {
                    Resolve::next_device(devices)
                }
            },
            ResolveStage::ActivePoint(device) => match object_in(reply) {
                Some(point) => {
                    let request = Request::Interface(device.clone());
                    ResolveStep::Ask(
                        Resolve { devices, stage: ResolveStage::Interface(device, point) },
                        request,
                    )
                },
                None => Resolve::next_device(devices),
            },
            ResolveStage::Interface(device, point) => match reply {
                Reply::Text(interface) => {
                    let (reader, request) = PointReader::start(point);
                    ResolveStep::Ask(
                        Resolve { devices, stage: ResolveStage::Point(device, interface, reader) },
                        request,
                    )
                },
                _ => Resolve::next_device(devices),
            },
            ResolveStage::Point(device, interface, reader) => match reader.step(reply) {
                PointStep::Ask(next, request) => ResolveStep::Ask(
                    Resolve { devices, stage: ResolveStage::Point(device, interface, next) },
                    request,
                ),
                PointStep::Done(Ok(ap)) => {
                    let request = Request::Ip4Config(device.clone());
                    let found = ActiveConnection {
                        ssid: ap.ssid,
                        strength: ap.strength,
                        interface,
                        ip_address: String::new(),
                    };
                    ResolveStep::Ask(
                        Resolve { devices, stage: ResolveStage::Config(device, found) },
                        request,
                    )
                },
                PointStep::Done(Err(_)) => Resolve::next_device(devices),
            },
            ResolveStage::Config(_, found) => match object_in(reply) {
                Some(config) => {
                    let request = Request::AddressData(config.clone());
                    ResolveStep::Ask(
                        Resolve { devices, stage: ResolveStage::Data(config, found) },
                        request,
                    )
                },
                None => ResolveStep::Done(Ok(Some(found))),
            },
            ResolveStage::Data(_, found) => match reply {
                Reply::Records(records) => {
                    let ActiveConnection { ssid, strength, interface, ip_address: _ } = found;
                    ResolveStep::Done(
                        Ok(
                            Some(
                                ActiveConnection {
                                    ssid,
                                    strength,
                                    interface,
                                    ip_address: address_in(&records),
                                },
                            ),
                        ),
                    )
                },
                _ => ResolveStep::Done(Ok(Some(found))),
            },
        }
    }
}

} // verus!
