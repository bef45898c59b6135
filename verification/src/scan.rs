//! Scanning: every wireless device's access points, merged and ranked.
//!
//! The scan asks for the manager's devices and visits them in order. Of each
//! it asks the type; a device that is not wireless, or whose type cannot be
//! read, is passed over. A wireless device is asked to scan, whatever comes
//! of that, and then for its access points, which are read one by one and
//! merged into the catalog as they arrive. A device or an access point that
//! fails costs only itself. When the last device is done the catalog is
//! ranked and handed out.

use vstd::prelude::*;
use crate::access_point::{AccessPoint, AccessPointView};
use crate::bus::{
    failure, failure_of, into_queue, is_wireless, is_wireless_code, lemma_queue_pop, tells_wireless, ClientError,
    ClientErrorView, Reply, ReplyView, Request, RequestView, Service,
};
use crate::catalog::{
    lemma_merge_onto_concat, lemma_merge_onto_one, merge_access_point, merge_all, merge_one,
    merge_onto,
};
use crate::decode::{
    point_awaits, point_finish, point_questions, point_start, point_step, read_point, PointReader,
    PointReaderView, PointStep, PointStepView,
};
use crate::ranking::{rank, sort_by_strength};

verus! {

/// What a scan is waiting for.
#[derive(Debug)]
enum ScanStage {
    Devices,
    DeviceType(String),
    RequestScan(String),
    AccessPoints(String),
    Point(PointReader),
}

/// A scan, part of the way through.
#[derive(Debug)]
pub struct Scan {
    /// Devices still to visit, the next one last.
    devices: Vec<String>,
    /// Access points of the current device still to read, the next one last.
    points: Vec<String>,
    catalog: Vec<AccessPoint>,
    stage: ScanStage,
}

/// What a scan is waiting for: the device list, something of the device it
/// is visiting, or a property of the access point it is reading.
pub enum ScanStageView {
    Devices,
    DeviceType(Seq<char>),
    RequestScan(Seq<char>),
    AccessPoints(Seq<char>),
    Point(PointReaderView),
}

/// The mathematical content of a [`Scan`]: the devices and access points
/// still to come, each in visiting order, the catalog so far, and what is
/// being waited for.
pub struct ScanView {
    pub devices: Seq<Seq<char>>,
    pub points: Seq<Seq<char>>,
    pub catalog: Seq<AccessPointView>,
    pub stage: ScanStageView,
}

impl View for ScanStage {
    type V = ScanStageView;

    closed spec fn view(&self) -> ScanStageView {
        match self {
            ScanStage::Devices => ScanStageView::Devices,
            ScanStage::DeviceType(device) => ScanStageView::DeviceType(device@),
            ScanStage::RequestScan(device) => ScanStageView::RequestScan(device@),
            ScanStage::AccessPoints(device) => ScanStageView::AccessPoints(device@),
            ScanStage::Point(reader) => ScanStageView::Point(reader@),
        }
    }
}

impl View for Scan {
    type V = ScanView;

    closed spec fn view(&self) -> ScanView {
        ScanView {
            devices: self.devices.deep_view().reverse(),
            points: self.points.deep_view().reverse(),
            catalog: self.catalog.deep_view(),
            stage: self.stage@,
        }
    }
}

/// The outcome of a scan.
pub type ScanResult = Result<Vec<AccessPoint>, ClientError>;

/// The content of a scan's outcome.
pub open spec fn scan_result_view(result: ScanResult) -> Result<
    Seq<AccessPointView>,
    ClientErrorView,
> {
    match result {
        Ok(catalog) => Ok(catalog.deep_view()),
        Err(error) => Err(error@),
    }
}

/// What a scan does next: ask again, or end with its outcome.
#[derive(Debug)]
pub enum ScanStep {
    Ask(Scan, Request),
    Done(ScanResult),
}

/// The mathematical content of a [`ScanStep`].
pub enum ScanStepView {
    Ask(ScanView, RequestView),
    Done(Result<Seq<AccessPointView>, ClientErrorView>),
}

impl View for ScanStep {
    type V = ScanStepView;

    open spec fn view(&self) -> ScanStepView {
        match self {
            ScanStep::Ask(scan, request) => ScanStepView::Ask(scan@, request@),
            ScanStep::Done(result) => ScanStepView::Done(scan_result_view(*result)),
        }
    }
}

/// A scan that has asked nothing yet.
pub open spec fn scan_start() -> ScanView {
    ScanView {
        devices: Seq::empty(),
        points: Seq::empty(),
        catalog: Seq::empty(),
        stage: ScanStageView::Devices,
    }
}

/// The question a scan is waiting to have answered.
pub open spec fn scan_awaits(scan: ScanView) -> RequestView {
    match scan.stage {
        ScanStageView::Devices => RequestView::Devices,
        ScanStageView::DeviceType(device) => RequestView::DeviceType(device),
        ScanStageView::RequestScan(device) => RequestView::RequestScan(device),
        ScanStageView::AccessPoints(device) => RequestView::AccessPoints(device),
        ScanStageView::Point(reader) => point_awaits(reader),
    }
}

/// A scan in the given state, with the question that state waits for.
pub open spec fn scan_asking(scan: ScanView) -> ScanStepView {
    ScanStepView::Ask(scan, scan_awaits(scan))
}

/// On to the next device, or to the end when none is left.
pub open spec fn scan_next_device(
    devices: Seq<Seq<char>>,
    catalog: Seq<AccessPointView>,
) -> ScanStepView {
    if devices.len() == 0 {
        ScanStepView::Done(Ok(rank(catalog)))
    } else {
        scan_asking(
            ScanView {
                devices: devices.drop_first(),
                points: Seq::empty(),
                catalog,
                stage: ScanStageView::DeviceType(devices.first()),
            },
        )
    }
}

/// On to the device's next access point, or to the next device when none is left.
pub open spec fn scan_next_point(
    devices: Seq<Seq<char>>,
    points: Seq<Seq<char>>,
    catalog: Seq<AccessPointView>,
) -> ScanStepView {
    if points.len() == 0 {
        scan_next_device(devices, catalog)
    } else {
        scan_asking(
            ScanView {
                devices,
                points: points.drop_first(),
                catalog,
                stage: ScanStageView::Point(point_start(points.first())),
            },
        )
    }
}

/// What a scan does when its question is answered with `reply`.
pub open spec fn scan_step(scan: ScanView, reply: ReplyView) -> ScanStepView {
    match scan.stage {
        ScanStageView::Devices => match reply {
            ReplyView::Paths(devices) => scan_next_device(devices, Seq::empty()),
            _ => ScanStepView::Done(Err(failure(reply))),
        },
        ScanStageView::DeviceType(device) => if tells_wireless(reply) {
            scan_asking(ScanView { stage: ScanStageView::RequestScan(device), ..scan })
        } else {
            scan_next_device(scan.devices, scan.catalog)
        },
        ScanStageView::RequestScan(device) => scan_asking(
            ScanView { stage: ScanStageView::AccessPoints(device), ..scan },
        ),
        ScanStageView::AccessPoints(device) => match reply {
            ReplyView::Paths(points) => scan_next_point(scan.devices, points, scan.catalog),
            _ => scan_next_device(scan.devices, scan.catalog),
        },
        ScanStageView::Point(reader) => match point_step(reader, reply) {
            PointStepView::Ask(next, _) => scan_asking(
                ScanView { stage: ScanStageView::Point(next), ..scan },
            ),
            PointStepView::Done(Ok(ap)) => scan_next_point(
                scan.devices,
                scan.points,
                merge_one(scan.catalog, ap),
            ),
            PointStepView::Done(Err(_)) => scan_next_point(scan.devices, scan.points, scan.catalog),
        },
    }
}

/// How far a stage is from the end of its device's visit.
pub open spec fn scan_stage_rank(stage: ScanStageView) -> nat {
    match stage {
        ScanStageView::Devices => 5,
        ScanStageView::DeviceType(_) => 4,
        ScanStageView::RequestScan(_) => 3,
        ScanStageView::AccessPoints(_) => 2,
        ScanStageView::Point(_) => 1,
    }
}

/// Whether the scan has yet to learn the devices.
pub open spec fn scan_unlisted(stage: ScanStageView) -> nat {
    match stage {
        ScanStageView::Devices => 1,
        _ => 0,
    }
}

/// How many questions the reader of the current access point has still to ask.
pub open spec fn scan_reader_questions(stage: ScanStageView) -> nat {
    match stage {
        ScanStageView::Point(reader) => point_questions(reader.stage),
        _ => 0,
    }
}

/// What a scan ends with when `service` answers its questions.
pub open spec fn scan_finish(service: Service, scan: ScanView) -> Result<
    Seq<AccessPointView>,
    ClientErrorView,
>
    decreases
        scan_unlisted(scan.stage),
        scan.devices.len(),
        scan_stage_rank(scan.stage),
        scan.points.len(),
        scan_reader_questions(scan.stage),
{
    match scan_step(scan, service(scan_awaits(scan))) {
        ScanStepView::Ask(next, _) => scan_finish(service, next),
        ScanStepView::Done(result) => result,
    }
}

/// The access point that was read, if one was.
pub open spec fn sighting(read: Result<AccessPointView, crate::decode::DecodeError>) -> Seq<
    AccessPointView,
> {
    match read {
        Ok(ap) => seq![ap],
        Err(_) => Seq::empty(),
    }
}

/// The access points at `points` that can be read, in order.
pub open spec fn sighted(service: Service, points: Seq<Seq<char>>) -> Seq<AccessPointView>
    decreases points.len(),
{
    if points.len() == 0 {
        Seq::empty()
    } else {
        sighted(service, points.drop_last()) + sighting(read_point(service, points.last()))
    }
}

/// The readable access points that the device lists; none if the list
/// cannot be had.
pub open spec fn listed(service: Service, device: Seq<char>) -> Seq<AccessPointView> {
    match service(RequestView::AccessPoints(device)) {
        ReplyView::Paths(points) => sighted(service, points),
        _ => Seq::empty(),
    }
}

/// What one device contributes: its readable access points if it is
/// wireless, nothing if it is not.
pub open spec fn device_sightings(service: Service, device: Seq<char>) -> Seq<AccessPointView> {
    if is_wireless(service, device) {
        listed(service, device)
    } else {
        Seq::empty()
    }
}

/// What the devices contribute, in order.
pub open spec fn sightings(service: Service, devices: Seq<Seq<char>>) -> Seq<AccessPointView>
    decreases devices.len(),
{
    if devices.len() == 0 {
        Seq::empty()
    } else {
        sightings(service, devices.drop_last()) + device_sightings(service, devices.last())
    }
}

/// Those of the devices that are wireless, in order.
pub open spec fn wireless_devices(service: Service, devices: Seq<Seq<char>>) -> Seq<Seq<char>>
    decreases devices.len(),
{
    if devices.len() == 0 {
        Seq::empty()
    } else if is_wireless(service, devices.last()) {
        wireless_devices(service, devices.drop_last()).push(devices.last())
    } else {
        wireless_devices(service, devices.drop_last())
    }
}

/// The readable access points that the devices list, in order.
pub open spec fn all_listed(service: Service, devices: Seq<Seq<char>>) -> Seq<AccessPointView>
    decreases devices.len(),
{
    if devices.len() == 0 {
        Seq::empty()
    } else {
        all_listed(service, devices.drop_last()) + listed(service, devices.last())
    }
}

/// What the devices contribute is what the wireless among them list.
pub proof fn lemma_sightings_of_wireless(service: Service, devices: Seq<Seq<char>>)
    ensures
        sightings(service, devices) == all_listed(service, wireless_devices(service, devices)),
    decreases devices.len(),
{
    if devices.len() > 0 {
        let earlier = devices.drop_last();
        let wireless = wireless_devices(service, earlier);
        lemma_sightings_of_wireless(service, earlier);
        if is_wireless(service, devices.last()) {
            assert(wireless.push(devices.last()).drop_last() =~= wireless);
        } else {
            assert(sightings(service, devices) =~= sightings(service, earlier));
        }
    }
}

/// The outcome of a scan of `service`: the catalog of all that its wireless
/// devices contribute, ranked; or the error of the device list.
pub open spec fn scan_all(service: Service) -> Result<Seq<AccessPointView>, ClientErrorView> {
    match service(RequestView::Devices) {
        ReplyView::Paths(devices) => Ok(rank(merge_all(sightings(service, devices)))),
        other => Err(failure(other)),
    }
}

/// What a scan under way has still to receive.
pub open spec fn scan_pending(service: Service, scan: ScanView) -> Seq<AccessPointView> {
    match scan.stage {
        ScanStageView::Devices => Seq::empty(),
        ScanStageView::DeviceType(device) => device_sightings(service, device) + sightings(
            service,
            scan.devices,
        ),
        ScanStageView::RequestScan(device) => listed(service, device) + sightings(
            service,
            scan.devices,
        ),
        ScanStageView::AccessPoints(device) => listed(service, device) + sightings(
            service,
            scan.devices,
        ),
        ScanStageView::Point(reader) => sighting(point_finish(service, reader)) + (sighted(
            service,
            scan.points,
        ) + sightings(service, scan.devices)),
    }
}

/// What a step leads to when `service` answers from then on.
pub open spec fn scan_step_finish(service: Service, step: ScanStepView) -> Result<
    Seq<AccessPointView>,
    ClientErrorView,
> {
    match step {
        ScanStepView::Ask(next, _) => scan_finish(service, next),
        ScanStepView::Done(result) => result,
    }
}

/// The first access point's reading comes before the rest.
pub proof fn lemma_sighted_front(service: Service, points: Seq<Seq<char>>)
    requires
        points.len() > 0,
    ensures
        sighted(service, points) == sighting(read_point(service, points.first())) + sighted(
            service,
            points.drop_first(),
        ),
    decreases points.len(),
{
    if points.len() == 1 {
        assert(points.drop_last() =~= Seq::<Seq<char>>::empty());
        assert(points.drop_first() =~= Seq::<Seq<char>>::empty());
        assert(sighted(service, points.drop_last()) =~= Seq::<AccessPointView>::empty());
        assert(sighted(service, points) =~= sighting(read_point(service, points.first()))
            + sighted(service, points.drop_first()));
    } else {
        lemma_sighted_front(service, points.drop_last());
        assert(points.drop_last().drop_first() =~= points.drop_first().drop_last());
        assert(points.drop_last().first() == points.first());
        assert(points.drop_first().last() == points.last());
        assert(sighted(service, points) =~= sighting(read_point(service, points.first()))
            + sighted(service, points.drop_first()));
    }
}

/// The first device's contribution comes before the rest.
pub proof fn lemma_sightings_front(service: Service, devices: Seq<Seq<char>>)
    requires
        devices.len() > 0,
    ensures
        sightings(service, devices) == device_sightings(service, devices.first()) + sightings(
            service,
            devices.drop_first(),
        ),
    decreases devices.len(),
{
    if devices.len() == 1 {
        assert(devices.drop_last() =~= Seq::<Seq<char>>::empty());
        assert(devices.drop_first() =~= Seq::<Seq<char>>::empty());
        assert(sightings(service, devices.drop_last()) =~= Seq::<AccessPointView>::empty());
        assert(sightings(service, devices) =~= device_sightings(service, devices.first())
            + sightings(service, devices.drop_first()));
    } else {
        lemma_sightings_front(service, devices.drop_last());
        assert(devices.drop_last().drop_first() =~= devices.drop_first().drop_last());
        assert(devices.drop_last().first() == devices.first());
        assert(devices.drop_first().last() == devices.last());
        assert(sightings(service, devices) =~= device_sightings(service, devices.first())
            + sightings(service, devices.drop_first()));
    }
}

/// From a device's end the scan ends with what the remaining devices add.
pub proof fn lemma_scan_next_device(
    service: Service,
    devices: Seq<Seq<char>>,
    catalog: Seq<AccessPointView>,
)
    ensures
        scan_step_finish(service, scan_next_device(devices, catalog)) == Ok::<
            Seq<AccessPointView>,
            ClientErrorView,
        >(rank(merge_onto(catalog, sightings(service, devices)))),
    decreases 0nat, devices.len(), 0nat, 0nat, 0nat,
{
    if devices.len() > 0 {
        let next = ScanView {
            devices: devices.drop_first(),
            points: Seq::empty(),
            catalog,
            stage: ScanStageView::DeviceType(devices.first()),
        };
        lemma_scan_under_way(service, next);
        lemma_sightings_front(service, devices);
    }
}

/// From an access point's end the scan ends with what the device's
/// remaining access points and the remaining devices add.
pub proof fn lemma_scan_next_point(
    service: Service,
    devices: Seq<Seq<char>>,
    points: Seq<Seq<char>>,
    catalog: Seq<AccessPointView>,
)
    ensures
        scan_step_finish(service, scan_next_point(devices, points, catalog)) == Ok::<
            Seq<AccessPointView>,
            ClientErrorView,
        >(rank(merge_onto(catalog, sighted(service, points) + sightings(service, devices)))),
    decreases 0nat, devices.len(), 1nat, points.len(), 0nat,
{
    if points.len() == 0 {
        lemma_scan_next_device(service, devices, catalog);
        assert(sighted(service, points) + sightings(service, devices) =~= sightings(
            service,
            devices,
        ));
    } else {
        let next = ScanView {
            devices,
            points: points.drop_first(),
            catalog,
            stage: ScanStageView::Point(point_start(points.first())),
        };
        lemma_scan_under_way(service, next);
        lemma_sighted_front(service, points);
        crate::decode::lemma_point_reader_reads(service, points.first());
        assert(scan_pending(service, next) =~= sighted(service, points) + sightings(
            service,
            devices,
        ));
    }
}

/// A scan under way ends with its catalog, what is still to come merged
/// in, ranked.
pub proof fn lemma_scan_under_way(service: Service, scan: ScanView)
    requires
        !(scan.stage is Devices),
    ensures
        scan_finish(service, scan) == Ok::<Seq<AccessPointView>, ClientErrorView>(
            rank(merge_onto(scan.catalog, scan_pending(service, scan))),
        ),
    decreases
        0nat,
        scan.devices.len(),
        scan_stage_rank(scan.stage),
        scan.points.len(),
        scan_reader_questions(scan.stage),
{
    let reply = service(scan_awaits(scan));
    let rest = sightings(service, scan.devices);
    match scan.stage {
        ScanStageView::Devices => {},
        ScanStageView::DeviceType(device) => {
            if tells_wireless(reply) {
                lemma_scan_under_way(
                    service,
                    ScanView { stage: ScanStageView::RequestScan(device), ..scan },
                );
            } else {
                lemma_scan_next_device(service, scan.devices, scan.catalog);
                assert(scan_pending(service, scan) =~= rest);
            }
        },
        ScanStageView::RequestScan(device) => {
            lemma_scan_under_way(
                service,
                ScanView { stage: ScanStageView::AccessPoints(device), ..scan },
            );
        },
        ScanStageView::AccessPoints(device) => {
            match reply {
                ReplyView::Paths(points) => {
                    lemma_scan_next_point(service, scan.devices, points, scan.catalog);
                },
                _ => {
                    lemma_scan_next_device(service, scan.devices, scan.catalog);
                    assert(scan_pending(service, scan) =~= rest);
                },
            }
        },
        ScanStageView::Point(reader) => {
            let later = sighted(service, scan.points) + rest;
            match point_step(reader, reply) {
                PointStepView::Ask(next, _) => {
                    lemma_scan_under_way(
                        service,
                        ScanView { stage: ScanStageView::Point(next), ..scan },
                    );
                },
                PointStepView::Done(Ok(ap)) => {
                    lemma_scan_next_point(
                        service,
                        scan.devices,
                        scan.points,
                        merge_one(scan.catalog, ap),
                    );
                    lemma_merge_onto_concat(scan.catalog, seq![ap], later);
                    lemma_merge_onto_one(scan.catalog, ap);
                },
                PointStepView::Done(Err(_)) => {
                    lemma_scan_next_point(service, scan.devices, scan.points, scan.catalog);
                    assert(scan_pending(service, scan) =~= later);
                },
            }
        },
    }
}

/// A scan that is answered by a service ends with the ranked catalog of
/// what the service's wireless devices contribute, or with the error of the
/// device list.
pub proof fn lemma_scan_scans(service: Service)
    ensures
        scan_finish(service, scan_start()) == scan_all(service),
{
    match service(RequestView::Devices) {
        ReplyView::Paths(devices) => {
            lemma_scan_next_device(service, devices, Seq::empty());
        },
        _ => {},
    }
}

impl Scan {
    /// Begins a scan; the first question is for the manager's devices.
    pub fn start() -> (out: (Scan, Request))
        ensures
            out.0@ == scan_start(),
            out.1@ == scan_awaits(out.0@),
    {
        let scan = Scan {
            devices: Vec::new(),
            points: Vec::new(),
            catalog: Vec::new(),
            stage: ScanStage::Devices,
        };
        proof {
            assert(scan.devices.deep_view().reverse() =~= Seq::empty());
            assert(scan.points.deep_view().reverse() =~= Seq::empty());
            assert(scan.catalog.deep_view() =~= Seq::empty());
        }
        (scan, Request::Devices)
    }

    fn next_device(devices: Vec<String>, catalog: Vec<AccessPoint>) -> (out: ScanStep)
        ensures
            out@ == scan_next_device(devices.deep_view().reverse(), catalog.deep_view()),
    {
        let mut devices = devices;
        let mut catalog = catalog;
        let ghost queue = devices.deep_view();
        match devices.pop() {
            None => {
                sort_by_strength(&mut catalog);
                ScanStep::Done(Ok(catalog))
            },
            Some(device) => {
                proof {
                    lemma_queue_pop(queue);
                    assert(devices.deep_view() =~= queue.drop_last());
                    assert(device@ == queue.last());
                }
                let request = Request::DeviceType(device.clone());
                let points: Vec<String> = Vec::new();
                proof {
                    assert(points.deep_view().reverse() =~= Seq::empty());
                }
                ScanStep::Ask(
                    Scan { devices, points, catalog, stage: ScanStage::DeviceType(device) },
                    request,
                )
            },
        }
    }

    fn next_point(devices: Vec<String>, points: Vec<String>, catalog: Vec<AccessPoint>) -> (out:
        ScanStep)
        ensures
            out@ == scan_next_point(
                devices.deep_view().reverse(),
                points.deep_view().reverse(),
                catalog.deep_view(),
            ),
    {
        let mut points = points;
        let ghost queue = points.deep_view();
        match points.pop() {
            None => Scan::next_device(devices, catalog),
            Some(point) => {
                proof {
                    lemma_queue_pop(queue);
                    assert(points.deep_view() =~= queue.drop_last());
                    assert(point@ == queue.last());
                }
                let (reader, request) = PointReader::start(point);
                ScanStep::Ask(
                    Scan { devices, points, catalog, stage: ScanStage::Point(reader) },
                    request,
                )
            },
        }
    }

    /// Takes the answer to the question that was asked last.
    pub fn step(self, reply: Reply) -> (out: ScanStep)
        ensures
            out@ == scan_step(self@, reply@),
    {
        let Scan { devices, points, catalog, stage } = self;
        match stage {
            ScanStage::Devices => match reply {
                Reply::Paths(listed) => {
                    let queue = into_queue(listed);
                    proof {
                        assert(queue.deep_view().reverse() =~= listed.deep_view());
                    }
                    let fresh: Vec<AccessPoint> = Vec::new();
                    proof {
                        assert(fresh.deep_view() =~= Seq::empty());
                    }
                    Scan::next_device(queue, fresh)
                },
                other => ScanStep::Done(Err(failure_of(other))),
            },
            ScanStage::DeviceType(device) => {
                if is_wireless_code(&reply) {
                    let request = Request::RequestScan(device.clone());
                    ScanStep::Ask(
                        Scan { devices, points, catalog, stage: ScanStage::RequestScan(device) },
                        request,
                    )
                } else {
                    Scan::next_device(devices, catalog)
                }
            },
            ScanStage::RequestScan(device) => {
                let request = Request::AccessPoints(device.clone());
                ScanStep::Ask(
                    Scan { devices, points, catalog, stage: ScanStage::AccessPoints(device) },
                    request,
                )
            },
            ScanStage::AccessPoints(device) => match reply {
                Reply::Paths(listed) => {
                    let queue = into_queue(listed);
                    proof {
                        assert(queue.deep_view().reverse() =~= listed.deep_view());
                    }
                    Scan::next_point(devices, queue, catalog)
                },
                _ => Scan::next_device(devices, catalog),
            },
            ScanStage::Point(reader) => match reader.step(reply) {
                PointStep::Ask(next, request) => ScanStep::Ask(
                    Scan { devices, points, catalog, stage: ScanStage::Point(next) },
                    request,
                ),
                PointStep::Done(Ok(ap)) => {
                    let mut catalog = catalog;
                    merge_access_point(&mut catalog, ap);
                    Scan::next_point(devices, points, catalog)
                },
                PointStep::Done(Err(_)) => Scan::next_point(devices, points, catalog),
            },
        }
    }
}

} // verus!
