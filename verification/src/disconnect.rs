//! Taking a device off its network, by interface name.
//!
//! All devices are looked through, wireless or not, in the order the
//! manager lists them. The first whose interface name is the given one is
//! told to disconnect, and what it answers is the outcome. A device whose
//! name cannot be read is passed over. If no device carries the name, no
//! device is told anything and the outcome is an error that says so.

use vstd::prelude::*;
use crate::bus::{
    failure, failure_of, into_queue, lemma_queue_pop, ClientError, ClientErrorView, Reply,
    ReplyView, Request, RequestView, Service,
};

verus! {

/// What a disconnect is waiting for.
#[derive(Debug)]
enum DisconnectStage {
    Devices,
    Interface(String),
    Disconnect(String),
}

/// A disconnect, part of the way through.
#[derive(Debug)]
pub struct Disconnect {
    /// The interface name that was given.
    interface: String,
    /// Devices still to look at, the next one last.
    devices: Vec<String>,
    stage: DisconnectStage,
}

/// What a disconnect is waiting for: the device list, the interface name of
/// the device it is looking at, or that device's answer to being told to
/// disconnect.
pub enum DisconnectStageView {
    Devices,
    Interface(Seq<char>),
    Disconnect(Seq<char>),
}

/// The mathematical content of a [`Disconnect`]: the interface name that
/// was given, the devices still to come, in order, and what is being waited
/// for.
pub struct DisconnectView {
    pub interface: Seq<char>,
    pub devices: Seq<Seq<char>>,
    pub stage: DisconnectStageView,
}

impl View for DisconnectStage {
    type V = DisconnectStageView;

    closed spec fn view(&self) -> DisconnectStageView {
        match self {
            DisconnectStage::Devices => DisconnectStageView::Devices,
            DisconnectStage::Interface(device) => DisconnectStageView::Interface(device@),
            DisconnectStage::Disconnect(device) => DisconnectStageView::Disconnect(device@),
        }
    }
}

impl View for Disconnect {
    type V = DisconnectView;

    closed spec fn view(&self) -> DisconnectView {
        DisconnectView {
            interface: self.interface@,
            devices: self.devices.deep_view().reverse(),
            stage: self.stage@,
        }
    }
}

/// The outcome of a disconnect.
pub type DisconnectResult = Result<(), ClientError>;

/// The content of a disconnect's outcome.
pub open spec fn disconnect_result_view(result: DisconnectResult) -> Result<(), ClientErrorView> {
    match result {
        Ok(_) => Ok(()),
        Err(error) => Err(error@),
    }
}

/// What a disconnect does next: ask again, or end with its outcome.
#[derive(Debug)]
pub enum DisconnectStep {
    Ask(Disconnect, Request),
    Done(DisconnectResult),
}

/// The mathematical content of a [`DisconnectStep`].
pub enum DisconnectStepView {
    Ask(DisconnectView, RequestView),
    Done(Result<(), ClientErrorView>),
}

impl View for DisconnectStep {
    type V = DisconnectStepView;

    open spec fn view(&self) -> DisconnectStepView {
        match self {
            DisconnectStep::Ask(disconnect, request) => DisconnectStepView::Ask(
                disconnect@,
                request@,
            ),
            DisconnectStep::Done(result) => DisconnectStepView::Done(
                disconnect_result_view(*result),
            ),
        }
    }
}

/// A disconnect of `interface` that has asked nothing yet.
pub open spec fn disconnect_start(interface: Seq<char>) -> DisconnectView {
    DisconnectView { interface, devices: Seq::empty(), stage: DisconnectStageView::Devices }
}

/// The question a disconnect is waiting to have answered.
pub open spec fn disconnect_awaits(disconnect: DisconnectView) -> RequestView {
    match disconnect.stage {
        DisconnectStageView::Devices => RequestView::Devices,
        DisconnectStageView::Interface(device) => RequestView::Interface(device),
        DisconnectStageView::Disconnect(device) => RequestView::Disconnect(device),
    }
}

/// A disconnect in the given state, with the question that state waits for.
pub open spec fn disconnect_asking(disconnect: DisconnectView) -> DisconnectStepView {
    DisconnectStepView::Ask(disconnect, disconnect_awaits(disconnect))
}

/// On to the next device, or to the end when none is left: then no device
/// carried the name.
pub open spec fn disconnect_next_device(
    interface: Seq<char>,
    devices: Seq<Seq<char>>,
) -> DisconnectStepView {
    if devices.len() == 0 {
        DisconnectStepView::Done(Err(ClientErrorView::DeviceNotFound(interface)))
    } else {
        disconnect_asking(
            DisconnectView {
                interface,
                devices: devices.drop_first(),
                stage: DisconnectStageView::Interface(devices.first()),
            },
        )
    }
}

/// What the device's answer to being told to disconnect comes to.
pub open spec fn disconnected(reply: ReplyView) -> Result<(), ClientErrorView> {
    match reply {
        ReplyView::Failed(message) => Err(ClientErrorView::Bus(message)),
        _ => Ok(()),
    }
}

/// What a disconnect does when its question is answered with `reply`.
pub open spec fn disconnect_step(disconnect: DisconnectView, reply: ReplyView) -> DisconnectStepView {
    match disconnect.stage {
        DisconnectStageView::Devices => match reply {
            ReplyView::Paths(listed) => disconnect_next_device(disconnect.interface, listed),
            _ => DisconnectStepView::Done(Err(failure(reply))),
        },
        DisconnectStageView::Interface(device) => if reply == ReplyView::Text(
            disconnect.interface,
        ) {
            disconnect_asking(
                DisconnectView { stage: DisconnectStageView::Disconnect(device), ..disconnect },
            )
        } else {
            disconnect_next_device(disconnect.interface, disconnect.devices)
        },
        DisconnectStageView::Disconnect(_) => DisconnectStepView::Done(disconnected(reply)),
    }
}

/// How far a stage is from the end of its device's turn.
pub open spec fn disconnect_stage_rank(stage: DisconnectStageView) -> nat {
    match stage {
        DisconnectStageView::Devices => 3,
        DisconnectStageView::Interface(_) => 2,
        DisconnectStageView::Disconnect(_) => 1,
    }
}

/// Whether the disconnect has yet to learn the devices.
pub open spec fn disconnect_unlisted(stage: DisconnectStageView) -> nat {
    match stage {
        DisconnectStageView::Devices => 1,
        _ => 0,
    }
}

/// What a disconnect ends with when `service` answers its questions.
pub open spec fn disconnect_finish(service: Service, disconnect: DisconnectView) -> Result<
    (),
    ClientErrorView,
>
    decreases
        disconnect_unlisted(disconnect.stage),
        disconnect.devices.len(),
        disconnect_stage_rank(disconnect.stage),
{
    match disconnect_step(disconnect, service(disconnect_awaits(disconnect))) {
        DisconnectStepView::Ask(next, _) => disconnect_finish(service, next),
        DisconnectStepView::Done(result) => result,
    }
}

/// The questions a disconnect asks, from the one it is waiting on to its
/// last, when `service` answers them.
pub open spec fn disconnect_asks(service: Service, disconnect: DisconnectView) -> Seq<RequestView>
    decreases
        disconnect_unlisted(disconnect.stage),
        disconnect.devices.len(),
        disconnect_stage_rank(disconnect.stage),
{
    let asked = disconnect_awaits(disconnect);
    match disconnect_step(disconnect, service(asked)) {
        DisconnectStepView::Ask(next, _) => seq![asked] + disconnect_asks(service, next),
        DisconnectStepView::Done(_) => seq![asked],
    }
}

/// Whether `service` gives the device the interface name `interface`.
pub open spec fn carries(service: Service, device: Seq<char>, interface: Seq<char>) -> bool {
    service(RequestView::Interface(device)) == ReplyView::Text(interface)
}

/// The first of the devices that carries the interface name.
pub open spec fn first_carrying(
    service: Service,
    devices: Seq<Seq<char>>,
    interface: Seq<char>,
) -> Option<Seq<char>>
    decreases devices.len(),
{
    if devices.len() == 0 {
        None
    } else if carries(service, devices.first(), interface) {
        Some(devices.first())
    } else {
        first_carrying(service, devices.drop_first(), interface)
    }
}

/// The outcome of disconnecting `interface` at `service`: the answer of the
/// first device that carries the name; an error if none does; or the error
/// of the device list.
pub open spec fn disconnect_all(service: Service, interface: Seq<char>) -> Result<
    (),
    ClientErrorView,
> {
    match service(RequestView::Devices) {
        ReplyView::Paths(devices) => match first_carrying(service, devices, interface) {
            Some(device) => disconnected(service(RequestView::Disconnect(device))),
            None => Err(ClientErrorView::DeviceNotFound(interface)),
        },
        other => Err(failure(other)),
    }
}

/// The questions that disconnecting `interface` asks of the devices: each
/// one's interface name up to the first that carries it, and that one is
/// told to disconnect.
pub open spec fn device_questions(
    service: Service,
    devices: Seq<Seq<char>>,
    interface: Seq<char>,
) -> Seq<RequestView>
    decreases devices.len(),
{
    if devices.len() == 0 {
        Seq::empty()
    } else if carries(service, devices.first(), interface) {
        seq![RequestView::Interface(devices.first()), RequestView::Disconnect(devices.first())]
    } else {
        seq![RequestView::Interface(devices.first())] + device_questions(
            service,
            devices.drop_first(),
            interface,
        )
    }
}

/// What a step leads to when `service` answers from then on.
pub open spec fn disconnect_step_finish(service: Service, step: DisconnectStepView) -> Result<
    (),
    ClientErrorView,
> {
    match step {
        DisconnectStepView::Ask(next, _) => disconnect_finish(service, next),
        DisconnectStepView::Done(result) => result,
    }
}

/// The questions a step leads to when `service` answers from then on.
pub open spec fn disconnect_step_asks(service: Service, step: DisconnectStepView) -> Seq<
    RequestView,
> {
    match step {
        DisconnectStepView::Ask(next, _) => disconnect_asks(service, next),
        DisconnectStepView::Done(_) => Seq::empty(),
    }
}

/// From a device's end the disconnect goes through the remaining devices.
pub proof fn lemma_disconnect_next_device(
    service: Service,
    interface: Seq<char>,
    devices: Seq<Seq<char>>,
)
    ensures
        disconnect_step_finish(service, disconnect_next_device(interface, devices)) == match
            first_carrying(service, devices, interface) {
            Some(device) => disconnected(service(RequestView::Disconnect(device))),
            None => Err(ClientErrorView::DeviceNotFound(interface)),
        },
        disconnect_step_asks(service, disconnect_next_device(interface, devices))
            == device_questions(service, devices, interface),
    decreases devices.len(),
{
    if devices.len() > 0 {
        let device = devices.first();
        let looking = DisconnectView {
            interface,
            devices: devices.drop_first(),
            stage: DisconnectStageView::Interface(device),
        };
        if carries(service, device, interface) {
            let telling = DisconnectView {
                stage: DisconnectStageView::Disconnect(device),
                ..looking
            };
            assert(disconnect_finish(service, telling) == disconnected(
                service(RequestView::Disconnect(device)),
            ));
            assert(disconnect_finish(service, looking) == disconnect_finish(service, telling));
            assert(disconnect_asks(service, telling) == seq![RequestView::Disconnect(device)]);
            assert(disconnect_asks(service, looking) =~= device_questions(
                service,
                devices,
                interface,
            ));
        } else {
            lemma_disconnect_next_device(service, interface, devices.drop_first());
            assert(disconnect_step(looking, service(RequestView::Interface(device)))
                == disconnect_next_device(interface, devices.drop_first()));
            assert(disconnect_finish(service, looking) == disconnect_step_finish(
                service,
                disconnect_next_device(interface, devices.drop_first()),
            ));
            assert(disconnect_asks(service, looking) =~= device_questions(
                service,
                devices,
                interface,
            ));
        }
    }
}

/// A disconnect that is answered by a service ends with the answer of the
/// first device that carries the name, with an error if none does, or with
/// the error of the device list; and it asks for the device list, then what
/// it has to ask of the devices.
pub proof fn lemma_disconnect_disconnects(service: Service, interface: Seq<char>)
    ensures
        disconnect_finish(service, disconnect_start(interface)) == disconnect_all(
            service,
            interface,
        ),
        disconnect_asks(service, disconnect_start(interface)) == seq![RequestView::Devices]
            + match service(RequestView::Devices) {
            ReplyView::Paths(devices) => device_questions(service, devices, interface),
            _ => Seq::empty(),
        },
{
    match service(RequestView::Devices) {
        ReplyView::Paths(devices) => {
            lemma_disconnect_next_device(service, interface, devices);
        },
        _ => {
            assert(disconnect_asks(service, disconnect_start(interface)) =~= seq![
                RequestView::Devices,
            ] + Seq::<RequestView>::empty());
        },
    }
}

/// Where no device carries the name, every device is asked its interface
/// name and none is told to disconnect.
pub proof fn lemma_no_carrier_questions(
    service: Service,
    devices: Seq<Seq<char>>,
    interface: Seq<char>,
)
    requires
        forall|i: int| 0 <= i < devices.len() ==> !carries(service, #[trigger] devices[i], interface),
    ensures
        first_carrying(service, devices, interface) is None,
        device_questions(service, devices, interface).len() == devices.len(),
        forall|k: int|
            0 <= k < devices.len() ==> #[trigger] device_questions(service, devices, interface)[k]
                == RequestView::Interface(devices[k]),
    decreases devices.len(),
{
    if devices.len() > 0 {
        assert(!carries(service, devices[0], interface));
        let rest = devices.drop_first();
        assert forall|i: int| 0 <= i < rest.len() implies !carries(
            service,
            #[trigger] rest[i],
            interface,
        ) by {
            assert(rest[i] == devices[i + 1]);
        }
        lemma_no_carrier_questions(service, rest, interface);
        assert forall|k: int| 0 <= k < devices.len() implies #[trigger] device_questions(
            service,
            devices,
            interface,
        )[k] == RequestView::Interface(devices[k]) by {
            if k > 0 {
                assert(device_questions(service, devices, interface)[k] == device_questions(
                    service,
                    rest,
                    interface,
                )[k - 1]);
                assert(rest[k - 1] == devices[k]);
            }
        }
    }
}

/// Disconnecting an interface name that no device carries ends with the
/// error that says so, and tells no device to disconnect.
pub proof fn lemma_unknown_interface(
    service: Service,
    devices: Seq<Seq<char>>,
    interface: Seq<char>,
)
    requires
        service(RequestView::Devices) == ReplyView::Paths(devices),
        forall|i: int| 0 <= i < devices.len() ==> !carries(service, #[trigger] devices[i], interface),
    ensures
        disconnect_finish(service, disconnect_start(interface)) == Err::<(), ClientErrorView>(
            ClientErrorView::DeviceNotFound(interface),
        ),
        forall|k: int|
            0 <= k < disconnect_asks(service, disconnect_start(interface)).len()
                ==> !(#[trigger] disconnect_asks(
                service,
                disconnect_start(interface),
            )[k] is Disconnect),
{
    lemma_disconnect_disconnects(service, interface);
    lemma_no_carrier_questions(service, devices, interface);
    let asks = disconnect_asks(service, disconnect_start(interface));
    assert forall|k: int| 0 <= k < asks.len() implies !(#[trigger] asks[k] is Disconnect) by {
        if k > 0 {
            assert(asks[k] == device_questions(service, devices, interface)[k - 1]);
        }
    }
}

impl Disconnect {
    /// Begins to disconnect the device whose interface name is `interface`;
    /// the first question is for the manager's devices.
    pub fn start(interface: &str) -> (out: (Disconnect, Request))
        ensures
            out.0@ == disconnect_start(interface@),
            out.1@ == disconnect_awaits(out.0@),
    {
        let disconnect = Disconnect {
            interface: interface.to_owned(),
            devices: Vec::new(),
            stage: DisconnectStage::Devices,
        };
        proof {
            assert(disconnect.devices.deep_view().reverse() =~= Seq::empty());
        }
        (disconnect, Request::Devices)
    }

    fn next_device(interface: String, devices: Vec<String>) -> (out: DisconnectStep)
        ensures
            out@ == disconnect_next_device(interface@, devices.deep_view().reverse()),
    {
        let mut devices = devices;
        let ghost queue = devices.deep_view();
        match devices.pop() {
            None => DisconnectStep::Done(Err(ClientError::DeviceNotFound(interface))),
            Some(device) => {
                proof {
                    lemma_queue_pop(queue);
                    assert(devices.deep_view() =~= queue.drop_last());
                    assert(device@ == queue.last());
                }
                let request = Request::Interface(device.clone());
                DisconnectStep::Ask(
                    Disconnect { interface, devices, stage: DisconnectStage::Interface(device) },
                    request,
                )
            },
        }
    }

    /// Takes the answer to the question that was asked last.
    pub fn step(self, reply: Reply) -> (out: DisconnectStep)
        ensures
            out@ == disconnect_step(self@, reply@),
    {
        let Disconnect { interface, devices, stage } = self;
        match stage {
            DisconnectStage::Devices => match reply {
                Reply::Paths(listed) => {
                    let queue = into_queue(listed);
                    proof {
                        assert(queue.deep_view().reverse() =~= listed.deep_view());
                    }
                    Disconnect::next_device(interface, queue)
                },
                other => DisconnectStep::Done(Err(failure_of(other))),
            },
            DisconnectStage::Interface(device) => {
                let carried = match reply {
                    Reply::Text(name) => name == interface,
                    _ => false,
                };
                if carried {
                    let request = Request::Disconnect(device.clone());
                    DisconnectStep::Ask(
                        Disconnect {
                            interface,
                            devices,
                            stage: DisconnectStage::Disconnect(device),
                        },
                        request,
                    )
                } else {
                    Disconnect::next_device(interface, devices)
                }
            },
            DisconnectStage::Disconnect(_) => match reply {
                Reply::Failed(message) => DisconnectStep::Done(Err(ClientError::Bus(message))),
                _ => DisconnectStep::Done(Ok(())),
            },
        }
    }
}

} // verus!
