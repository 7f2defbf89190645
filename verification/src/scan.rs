//! The scan of the bus: from the listing of the root to the devices that a
//! filter keeps.
//!
//! A scan reads nothing itself. It names the path that it needs read next,
//! takes the answer, and moves on; the caller does the reading.

use vstd::prelude::*;
use crate::device::{attr_path, owned_texts, Device, DeviceView};
use crate::error::Error;
use crate::options::{text_of, OptionsView, ScanOptions};
use crate::request::{Request, RequestView};
use crate::text::{is_upper_hex, pieces, split, texts, upper_hex};

verus! {

/// The path whose listing names the devices on the bus. It is the listing
/// that the bus makes anew on each read, not one that it kept.
pub open spec fn root_path() -> Seq<char> {
    "/uncached/"@
}

/// The path of the device that a root entry names, if it names one: the
/// entry starts with a hexadecimal digit in upper case and ends in `/`, and
/// the path is the entry without that `/`.
pub open spec fn device_path(entry: Seq<char>) -> Option<Seq<char>> {
    if entry.len() > 0 && is_upper_hex(entry[0]) && entry.last() == '/' {
        Some(entry.drop_last())
    } else {
        None
    }
}

/// The device paths among `entries`, in the order of the entries.
pub open spec fn paths_among(entries: Seq<Seq<char>>) -> Seq<Seq<char>> {
    entries.filter_map(|entry: Seq<char>| device_path(entry))
}

/// The paths of the devices that the root listing `root` names, in the
/// order of the listing.
pub open spec fn device_paths(root: Seq<char>) -> Seq<Seq<char>> {
    paths_among(split(root, ','))
}

/// Each entry that names a device has its path among the device paths.
proof fn lemma_paths_among_keeps(entries: Seq<Seq<char>>, i: int)
    requires
        0 <= i < entries.len(),
        device_path(entries[i]) is Some,
    ensures
        paths_among(entries).contains(device_path(entries[i])->Some_0),
    decreases entries.len(),
{
    let path = device_path(entries[i])->Some_0;
    let front = paths_among(entries.drop_last());
    if i == entries.len() - 1 {
        assert(paths_among(entries) == front + seq![path]);
        assert((front + seq![path])[front.len() as int] == path);
    } else {
        lemma_paths_among_keeps(entries.drop_last(), i);
        let k = choose|k: int| 0 <= k < front.len() && front[k] == path;
        match device_path(entries.last()) {
            Some(last) => {
                assert((front + seq![last])[k] == path);
            },
            None => {},
        }
    }
}

/// The devices that a scan considers are those that the root listing names
/// and no others: a path is a device path of the listing if and only if an
/// entry of the listing starts with a hexadecimal digit in upper case, ends
/// in `/`, and is the path with that `/` behind it.
pub proof fn lemma_device_paths(root: Seq<char>, path: Seq<char>)
    ensures
        device_paths(root).contains(path) <==> exists|entry: Seq<char>|
            #![trigger split(root, ',').contains(entry)]
            split(root, ',').contains(entry) && entry.len() > 0 && is_upper_hex(entry[0])
                && entry == path.push('/'),
{
    let entries = split(root, ',');
    if device_paths(root).contains(path) {
        entries.lemma_filter_map_contains(|entry: Seq<char>| device_path(entry), path);
        let entry = choose|entry: Seq<char>| #[trigger]
            entries.contains(entry) && device_path(entry) == Some(path);
        assert(entry =~= path.push('/'));
    }
    if exists|entry: Seq<char>|
        #![trigger entries.contains(entry)]
        entries.contains(entry) && entry.len() > 0 && is_upper_hex(entry[0]) && entry == path.push(
            '/',
        ) {
        let entry = choose|entry: Seq<char>|
            #![trigger entries.contains(entry)]
            entries.contains(entry) && entry.len() > 0 && is_upper_hex(entry[0]) && entry
                == path.push('/');
        let i = choose|i: int| 0 <= i < entries.len() && entries[i] == entry;
        assert(entry.drop_last() =~= path);
        lemma_paths_among_keeps(entries, i);
    }
}

/// What a read gave, as the contracts see it.
pub open spec fn answer_text(answer: Result<&str, Error>) -> Result<Seq<char>, Error> {
    match answer {
        Ok(text) => Ok(text@),
        Err(e) => Err(e),
    }
}

/// The text that a read gave, if it gave one.
pub open spec fn text_read(answer: Result<Seq<char>, Error>) -> Option<Seq<char>> {
    match answer {
        Ok(text) => Some(text),
        Err(_) => None,
    }
}

/// How far a scan has come.
pub enum Progress {
    /// The root listing is awaited.
    Root,
    /// The listing of the device at `paths[at]` is awaited.
    Listing { paths: Seq<Seq<char>>, at: nat, found: Seq<DeviceView> },
    /// The type of `device`, which was loaded from `paths[at]`, is awaited.
    Type { paths: Seq<Seq<char>>, at: nat, found: Seq<DeviceView>, device: DeviceView },
    /// The scan is over.
    Done { outcome: Result<Seq<DeviceView>, Error> },
}

impl Progress {
    /// Where a scan stands that has dealt with the first `at` of `paths`:
    /// before the next device, or at its end.
    pub open spec fn settle(paths: Seq<Seq<char>>, at: nat, found: Seq<DeviceView>) -> Progress {
        if at < paths.len() {
            Progress::Listing { paths, at, found }
        } else {
            Progress::Done { outcome: Ok(found) }
        }
    }
}

/// A scan as the contracts see it: its filter, and how far it has come.
pub struct ScanView {
    pub options: OptionsView,
    pub progress: Progress,
}

impl ScanView {
    /// The scan with the filter `options`, before anything was read.
    pub open spec fn start(options: OptionsView) -> ScanView {
        ScanView { options, progress: Progress::Root }
    }

    /// The path that the scan needs read next; none once it is over.
    pub open spec fn awaited(self) -> Option<Seq<char>> {
        match self.progress {
            Progress::Root => Some(root_path()),
            Progress::Listing { paths, at, found } => Some(paths[at as int]),
            Progress::Type { paths, at, found, device } => Some(attr_path(device.path, "type"@)),
            Progress::Done { outcome } => None,
        }
    }

    /// The devices found once the filter has judged `device`, whose type is
    /// `w1_type` if it was read.
    pub open spec fn judged(
        self,
        found: Seq<DeviceView>,
        device: DeviceView,
        w1_type: Option<Seq<char>>,
    ) -> Seq<DeviceView> {
        if self.options.accepts(device, w1_type) {
            found.push(device)
        } else {
            found
        }
    }

    /// The scan after `answer` came for the path that it awaited.
    ///
    /// A root listing that cannot be read ends the scan with the error of the
    /// read. A device whose listing cannot be read is passed over, and the
    /// scan goes on with the next one. A device that was loaded is judged at
    /// once if the filter asks for no type, and else when its type has been
    /// read; a type that cannot be read counts as unknown.
    pub open spec fn next(self, answer: Result<Seq<char>, Error>) -> ScanView {
        let progress = match self.progress {
            Progress::Root => match answer {
                Ok(root) => Progress::settle(device_paths(root), 0, Seq::empty()),
                Err(e) => Progress::Done { outcome: Err(e) },
            },
            Progress::Listing { paths, at, found } => match answer {
                Ok(listing) => {
                    let device = DeviceView::unloaded(paths[at as int]).load(listing);
                    if self.options.types is Some {
                        Progress::Type { paths, at, found, device }
                    } else {
                        Progress::settle(paths, at + 1, self.judged(found, device, None))
                    }
                },
                Err(_) => Progress::settle(paths, at + 1, found),
            },
            Progress::Type { paths, at, found, device } => Progress::settle(
                paths,
                at + 1,
                self.judged(found, device, text_read(answer)),
            ),
            Progress::Done { outcome } => self.progress,
        };
        ScanView { options: self.options, progress }
    }
}

/// The device that a scan keeps of `path` on the bus `bus`, which gives for
/// each path what a read of it gives: the device loaded from the listing at
/// `path`, if that can be read and the filter accepts the device.
pub open spec fn kept(
    options: OptionsView,
    bus: spec_fn(Seq<char>) -> Result<Seq<char>, Error>,
    path: Seq<char>,
) -> Option<DeviceView> {
    match bus(path) {
        Ok(listing) => {
            let device = DeviceView::unloaded(path).load(listing);
            if options.accepts(device, text_read(bus(attr_path(path, "type"@)))) {
                Some(device)
            } else {
                None
            }
        },
        Err(_) => None,
    }
}

/// The devices that a scan keeps of those at `paths`, in the order of `paths`.
pub open spec fn sift(
    options: OptionsView,
    bus: spec_fn(Seq<char>) -> Result<Seq<char>, Error>,
    paths: Seq<Seq<char>>,
) -> Seq<DeviceView> {
    paths.filter_map(|path: Seq<char>| kept(options, bus, path))
}

/// What a scan of the bus `bus` is to find: the error of reading the root
/// listing, or else the devices that the listing names, that can be loaded
/// and that the filter accepts, in the order of the listing.
pub open spec fn survey(
    options: OptionsView,
    bus: spec_fn(Seq<char>) -> Result<Seq<char>, Error>,
) -> Result<Seq<DeviceView>, Error> {
    match bus(root_path()) {
        Ok(root) => Ok(sift(options, bus, device_paths(root))),
        Err(e) => Err(e),
    }
}

/// A number of reads that is enough for a scan of the bus `bus`: the root,
/// and two for each device that its listing names.
pub open spec fn reads_enough(bus: spec_fn(Seq<char>) -> Result<Seq<char>, Error>) -> nat {
    match bus(root_path()) {
        Ok(root) => 1 + 2 * device_paths(root).len(),
        Err(_) => 1,
    }
}

impl ScanView {
    /// The scan after at most `steps` reads, each answered by the bus `bus`.
    pub open spec fn drive(
        self,
        bus: spec_fn(Seq<char>) -> Result<Seq<char>, Error>,
        steps: nat,
    ) -> ScanView
        decreases steps,
    {
        if steps == 0 {
            self
        } else {
            match self.awaited() {
                Some(path) => self.next(bus(path)).drive(bus, (steps - 1) as nat),
                None => self,
            }
        }
    }
}

/// A scan that stands between two devices and has so far found what it is
/// to find of the devices behind it ends with what it is to find of all.
proof fn lemma_drive_on(
    options: OptionsView,
    bus: spec_fn(Seq<char>) -> Result<Seq<char>, Error>,
    paths: Seq<Seq<char>>,
    at: nat,
    steps: nat,
)
    requires
        at <= paths.len(),
        steps >= 2 * (paths.len() - at),
    ensures
        (ScanView {
            options,
            progress: Progress::settle(paths, at, sift(options, bus, paths.take(at as int))),
        }).drive(bus, steps).progress == (Progress::Done {
            outcome: Ok(sift(options, bus, paths)),
        }),
    decreases paths.len() - at,
{
    let found = sift(options, bus, paths.take(at as int));
    let scan = ScanView { options, progress: Progress::settle(paths, at, found) };
    if at == paths.len() {
        assert(paths.take(at as int) =~= paths);
    } else {
        let path = paths[at as int];
        paths.lemma_filter_map_take_succ(|path: Seq<char>| kept(options, bus, path), at as int);
        let further = sift(options, bus, paths.take(at as int + 1));
        let onward = ScanView { options, progress: Progress::settle(paths, at + 1, further) };
        assert(scan.awaited() == Some(path));
        let loaded = scan.next(bus(path));
        assert(scan.drive(bus, steps) == loaded.drive(bus, (steps - 1) as nat));
        match bus(path) {
            Ok(listing) => {
                let device = DeviceView::unloaded(path).load(listing);
                let w1_type = bus(attr_path(path, "type"@));
                if options.types is Some {
                    assert(loaded.awaited() == Some(attr_path(path, "type"@)));
                    assert(loaded.drive(bus, (steps - 1) as nat) == loaded.next(w1_type).drive(
                        bus,
                        (steps - 2) as nat,
                    ));
                    assert(scan.judged(found, device, text_read(w1_type)) =~= further);
                    assert(loaded.next(w1_type) == onward);
                    lemma_drive_on(options, bus, paths, at + 1, (steps - 2) as nat);
                } else {
                    assert(scan.judged(found, device, None) =~= further);
                    assert(loaded == onward);
                    lemma_drive_on(options, bus, paths, at + 1, (steps - 1) as nat);
                }
            },
            Err(_) => {
                assert(found =~= further);
                assert(loaded == onward);
                lemma_drive_on(options, bus, paths, at + 1, (steps - 1) as nat);
            },
        }
    }
}

/// A scan whose reads the bus answers finds what a scan is to find: after
/// enough reads it is over, and its outcome is the survey of the bus.
pub proof fn lemma_scan_finds_survey(
    options: OptionsView,
    bus: spec_fn(Seq<char>) -> Result<Seq<char>, Error>,
    steps: nat,
)
    requires
        steps >= reads_enough(bus),
    ensures
        ScanView::start(options).drive(bus, steps).progress == (Progress::Done {
            outcome: survey(options, bus),
        }),
{
    let scan = ScanView::start(options);
    let read = scan.next(bus(root_path()));
    assert(scan.drive(bus, steps) == read.drive(bus, (steps - 1) as nat));
    match bus(root_path()) {
        Ok(root) => {
            let paths = device_paths(root);
            assert(paths.take(0) =~= Seq::<Seq<char>>::empty());
            assert(sift(options, bus, paths.take(0)) =~= Seq::<DeviceView>::empty());
            lemma_drive_on(options, bus, paths, 0, (steps - 1) as nat);
        },
        Err(e) => {
            assert(read.drive(bus, (steps - 1) as nat) == read);
        },
    }
}

/// Each device that a scan finds is one that the root listing names, whose
/// own listing could be read, that was loaded from it, and that the filter
/// accepts.
pub proof fn lemma_found_devices_were_loaded(
    options: OptionsView,
    bus: spec_fn(Seq<char>) -> Result<Seq<char>, Error>,
    i: int,
)
    requires
        survey(options, bus) matches Ok(found) && 0 <= i < found.len(),
    ensures
        ({
            let device = survey(options, bus)->Ok_0[i];
            &&& device_paths(bus(root_path())->Ok_0).contains(device.path)
            &&& bus(device.path) matches Ok(listing)
            &&& device == DeviceView::unloaded(device.path).load(listing)
            &&& options.accepts(device, text_read(bus(attr_path(device.path, "type"@))))
        }),
{
    let paths = device_paths(bus(root_path())->Ok_0);
    let found = sift(options, bus, paths);
    let device = found[i];
    assert(found.contains(device));
    paths.lemma_filter_map_contains(|path: Seq<char>| kept(options, bus, path), device);
    let path = choose|path: Seq<char>| #[trigger]
        paths.contains(path) && kept(options, bus, path) == Some(device);
    assert(device.path == path);
}

/// A device that cannot be loaded is passed over and the scan goes on:
/// where the root listing can be read, the scan ends well, whatever becomes
/// of the single devices, and no device at a path whose listing cannot be
/// read is among those found.
pub proof fn lemma_failed_load_is_passed_over(
    options: OptionsView,
    bus: spec_fn(Seq<char>) -> Result<Seq<char>, Error>,
    path: Seq<char>,
)
    requires
        bus(root_path()) is Ok,
        bus(path) is Err,
    ensures
        survey(options, bus) matches Ok(found) && forall|i: int|
            0 <= i < found.len() ==> (#[trigger] found[i]).path != path,
{
    let found = survey(options, bus)->Ok_0;
    assert forall|i: int| 0 <= i < found.len() implies (#[trigger] found[i]).path != path by {
        lemma_found_devices_were_loaded(options, bus, i);
    }
}

/// The views of the devices in `devices`.
pub open spec fn device_views(devices: Seq<Device>) -> Seq<DeviceView> {
    devices.map_values(|d: Device| d@)
}

/// The path of the device that the root entry `entry` names, if it names one.
fn path_in(entry: &str) -> (path: Option<&str>)
    ensures
        text_of(path) == device_path(entry@),
{
    let n = entry.unicode_len();
    if n > 0 && upper_hex(entry.get_char(0)) && entry.get_char(n - 1) == '/' {
        let path = entry.substring_char(0, n - 1);
        assert(path@ =~= entry@.drop_last());
        Some(path)
    } else {
        None
    }
}

/// The paths of the devices that the root listing `root` names.
pub fn candidates(root: &str) -> (paths: Vec<String>)
    ensures
        owned_texts(paths@) == device_paths(root@),
{
    let entries = pieces(root, ',');
    let mut paths: Vec<String> = Vec::new();
    let mut i: usize = 0;
    proof {
        assert(texts(entries@).take(0) =~= Seq::<Seq<char>>::empty());
        assert(owned_texts(paths@) =~= paths_among(texts(entries@).take(0)));
    }
    while i < entries.len()
        invariant
            i <= entries.len(),
            texts(entries@) == split(root@, ','),
            owned_texts(paths@) == paths_among(texts(entries@).take(i as int)),
        decreases entries.len() - i,
    {
        proof {
            assert(texts(entries@)[i as int] == entries@[i as int]@);
            texts(entries@).lemma_filter_map_take_succ(
                |entry: Seq<char>| device_path(entry),
                i as int,
            );
        }
        if let Some(path) = path_in(entries[i]) {
            let ghost before = owned_texts(paths@);
            paths.push(path.to_owned());
            assert(owned_texts(paths@) =~= before + seq![path@]);
        }
        i = i + 1;
    }
    proof {
        assert(texts(entries@).take(i as int) =~= texts(entries@));
    }
    paths
}

/// Where a scan stands between two answers.
enum Stage {
    Root,
    Listing,
    Type(Device),
    Done,
    Failed(Error),
}

/// A scan of the bus in progress.
///
/// `request` names the read that the scan waits for, `advance` takes its
/// answer, and once `request` has nothing more to ask, `outcome` hands out
/// what was found.
pub struct Scan<'a> {
    options: ScanOptions<'a>,
    stage: Stage,
    paths: Vec<String>,
    at: usize,
    found: Vec<Device>,
}

impl<'a> View for Scan<'a> {
    type V = ScanView;

    closed spec fn view(&self) -> ScanView {
        let paths = owned_texts(self.paths@);
        let at = self.at as nat;
        let found = device_views(self.found@);
        ScanView {
            options: self.options@,
            progress: match self.stage {
                Stage::Root => Progress::Root,
                Stage::Listing => Progress::Listing { paths, at, found },
                Stage::Type(device) => Progress::Type { paths, at, found, device: device@ },
                Stage::Done => Progress::Done { outcome: Ok(found) },
                Stage::Failed(e) => Progress::Done { outcome: Err(e) },
            },
        }
    }
}

impl<'a> Scan<'a> {
    /// While a device is being dealt with, there is such a device.
    #[verifier::type_invariant]
    spec fn in_range(&self) -> bool {
        (self.stage is Listing || self.stage is Type) ==> self.at < self.paths.len()
    }

    /// A scan with the filter `options`, before anything was read.
    pub fn new(options: ScanOptions<'a>) -> (scan: Self)
        ensures
            scan@ == ScanView::start(options@),
    {
        Scan { options, stage: Stage::Root, paths: Vec::new(), at: 0, found: Vec::new() }
    }

    /// The read that the scan waits for; none once the scan is over.
    pub fn request(&self) -> (request: Option<Request>)
        ensures
            match request {
                Some(r) => self@.awaited() matches Some(path) && r@ == (RequestView::Read { path }),
                None => self@.awaited() is None,
            },
    {
        proof {
            use_type_invariant(self);
        }
        match &self.stage {
            Stage::Root => Some(crate::get("/uncached/")),
            Stage::Listing => Some(crate::get(self.paths[self.at].as_str())),
            Stage::Type(device) => Some(device.get("type")),
            Stage::Done => None,
            Stage::Failed(_) => None,
        }
    }

    /// Takes the answer to the read that `request` named. A scan that is
    /// over awaits nothing and stays as it is.
    pub fn advance(&mut self, answer: Result<&str, Error>)
        ensures
            final(self)@ == old(self)@.next(answer_text(answer)),
    {
        proof {
            use_type_invariant(&*self);
        }
        let mut stage = Stage::Done;
        core::mem::swap(&mut stage, &mut self.stage);
        match stage {
            Stage::Root => match answer {
                Ok(root) => {
                    self.paths = candidates(root);
                    self.at = 0;
                    self.found = Vec::new();
                    self.stage = self.settled();
                    assert(device_views(self.found@) =~= Seq::<DeviceView>::empty());
                },
                Err(e) => {
                    self.stage = Stage::Failed(e);
                },
            },
            Stage::Listing => {
                let mut device = Device::new(self.paths[self.at].as_str());
                match device.load(answer) {
                    Ok(()) => {
                        if self.options.wants_type() {
                            self.stage = Stage::Type(device);
                                } else {
                            self.judge(device, None);
                                }
                    },
                    Err(_) => {
                        self.at = self.at + 1;
                        self.stage = self.settled();
                        },
                }
            },
            Stage::Type(device) => {
                let w1_type = match answer {
                    Ok(text) => Some(text),
                    Err(_) => None,
                };
                self.judge(device, w1_type);
            },
            Stage::Done => {},
            Stage::Failed(e) => {
                self.stage = Stage::Failed(e);
            },
        }
    }

    /// The stage of a scan that has dealt with the first `at` paths.
    fn settled(&self) -> (stage: Stage)
        ensures
            self.at < self.paths.len() ==> stage is Listing,
            self.at >= self.paths.len() ==> stage is Done,
    {
        if self.at < self.paths.len() {
            Stage::Listing
        } else {
            Stage::Done
        }
    }

    /// Has the filter judge `device`, the device at hand, and goes on to the
    /// next one.
    fn judge(&mut self, device: Device, w1_type: Option<&str>)
        requires
            old(self).stage is Done,
            old(self).at < old(self).paths.len(),
        ensures
            final(self).options == old(self).options,
            final(self).paths == old(self).paths,
            final(self).at == old(self).at + 1,
            device_views(final(self).found@) == old(self)@.judged(
                device_views(old(self).found@),
                device@,
                text_of(w1_type),
            ),
            final(self).at < final(self).paths.len() ==> final(self).stage is Listing,
            final(self).at >= final(self).paths.len() ==> final(self).stage is Done,
    {
        if self.options.matches(&device, w1_type) {
            let mut found = Vec::new();
            core::mem::swap(&mut found, &mut self.found);
            let ghost before = device_views(found@);
            found.push(device);
            assert(device_views(found@) =~= before.push(device@));
            self.found = found;
        }
        self.at = self.at + 1;
        self.stage = self.settled();
    }

    /// What the scan found: the devices that the filter kept, in the order
    /// of the root listing, or the error of reading that listing. `None`
    /// while the scan is not over.
    pub fn outcome(self) -> (outcome: Option<Result<Vec<Device>, Error>>)
        ensures
            match self@.progress {
                Progress::Done { outcome: Ok(found) } => outcome matches Some(Ok(devices))
                    && device_views(devices@) == found,
                Progress::Done { outcome: Err(e) } => outcome == Some(
                    Err::<Vec<Device>, Error>(e),
                ),
                _ => outcome is None,
            },
    {
        match self.stage {
            Stage::Done => Some(Ok(self.found)),
            Stage::Failed(e) => Some(Err(e)),
            _ => None,
        }
    }
}

} // verus!
