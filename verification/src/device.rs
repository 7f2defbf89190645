//! One device of the bus: its path, and the names of its attributes once
//! they have been loaded.

use vstd::prelude::*;
use vstd::string::StringExecFns;
use crate::decimal::{parse, parse_u32};
use crate::error::Error;
use crate::request::{Request, RequestView};
use crate::text::{pieces, same_text, split, texts};

verus! {

/// Whether a listing entry names a container of further entries rather than
/// an attribute: such an entry ends in `/`.
pub open spec fn is_container(entry: Seq<char>) -> bool {
    entry.len() > 0 && entry.last() == '/'
}

/// The names among `entries` that are no containers.
pub open spec fn kept_names(entries: Seq<Seq<char>>) -> Set<Seq<char>> {
    Set::new(|name: Seq<char>| entries.contains(name) && !is_container(name))
}

/// The attribute names that a device listing holds: its entries, which commas
/// separate, but for the containers.
pub open spec fn attr_names(listing: Seq<char>) -> Set<Seq<char>> {
    kept_names(split(listing, ','))
}

/// The path of the attribute `attr` of the device at `path`: the two, with
/// a `/` between them.
pub open spec fn attr_path(path: Seq<char>, attr: Seq<char>) -> Seq<char> {
    path + seq!['/'] + attr
}

/// What a device is to the contracts: its path and, once loaded, the set of
/// its attribute names. `None` is a device that was never loaded; a loaded
/// device may well have no attribute.
pub struct DeviceView {
    pub path: Seq<char>,
    pub attrs: Option<Set<Seq<char>>>,
}

impl DeviceView {
    /// The device at `path`, not loaded.
    pub open spec fn unloaded(path: Seq<char>) -> DeviceView {
        DeviceView { path, attrs: None }
    }

    /// The attribute names to test against: none while the device is not loaded.
    pub open spec fn names(self) -> Set<Seq<char>> {
        match self.attrs {
            Some(names) => names,
            None => Set::empty(),
        }
    }

    /// This device after loading `listing`: what was loaded before is gone.
    pub open spec fn load(self, listing: Seq<char>) -> DeviceView {
        DeviceView { path: self.path, attrs: Some(attr_names(listing)) }
    }

    /// A device that was never loaded has no attribute, whatever its name.
    pub proof fn lemma_unloaded_has_nothing(path: Seq<char>, name: Seq<char>)
        ensures
            !DeviceView::unloaded(path).names().contains(name),
    {
    }

    /// A loaded device has exactly the entries of its listing that are no
    /// containers.
    pub proof fn lemma_loaded_names(self, listing: Seq<char>, name: Seq<char>)
        ensures
            self.load(listing).names().contains(name) <==> (split(listing, ',').contains(name)
                && !is_container(name)),
    {
    }

    /// Loading replaces and does not merge: after two loads the device is as
    /// if only the second had taken place.
    pub proof fn lemma_reload_replaces(self, first: Seq<char>, second: Seq<char>)
        ensures
            self.load(first).load(second) == self.load(second),
    {
    }
}

/// The texts that the strings of `v` hold.
pub open spec fn owned_texts(v: Seq<String>) -> Seq<Seq<char>> {
    v.map_values(|t: String| t@)
}

/// A device of the bus.
#[derive(Debug)]
pub struct Device {
    path: String,
    attrs: Option<Vec<String>>,
}

impl View for Device {
    type V = DeviceView;

    closed spec fn view(&self) -> DeviceView {
        DeviceView {
            path: self.path@,
            attrs: match self.attrs {
                Some(names) => Some(owned_texts(names@).to_set()),
                None => None,
            },
        }
    }
}

/// One more entry of a listing: it is kept if it is no container and was not
/// kept before, and then the kept names are those among all entries seen.
proof fn lemma_keep_step(kept: Seq<Seq<char>>, seen: Seq<Seq<char>>, entry: Seq<char>)
    requires
        kept.no_duplicates(),
        kept.to_set() == kept_names(seen),
    ensures
        !is_container(entry) && !kept.contains(entry) ==> kept.push(entry).no_duplicates()
            && kept.push(entry).to_set() == kept_names(seen.push(entry)),
        is_container(entry) || kept.contains(entry) ==> kept.to_set() == kept_names(
            seen.push(entry),
        ),
{
    let wider = kept_names(seen.push(entry));
    assert forall|name: Seq<char>| seen.push(entry).contains(name) <==> (name == entry
        || seen.contains(name)) by {
        vstd::seq_lib::lemma_seq_contains_after_push(seen, entry, name);
    }
    assert forall|name: Seq<char>| kept.contains(name) <==> kept_names(seen).contains(name) by {
        assert(kept.contains(name) <==> kept.to_set().contains(name));
    }
    if !is_container(entry) && !kept.contains(entry) {
        let after = kept.push(entry);
        assert forall|i: int, j: int| 0 <= i < after.len() && 0 <= j < after.len() && i != j
            implies after[i] != after[j] by {
            if i == kept.len() {
                assert(kept[j] == after[j]);
                assert(kept.contains(kept[j]));
            } else if j == kept.len() {
                assert(kept[i] == after[i]);
                assert(kept.contains(kept[i]));
            }
        }
        assert forall|name: Seq<char>| after.to_set().contains(name) <==> wider.contains(
            name,
        ) by {
            vstd::seq_lib::lemma_seq_contains_after_push(kept, entry, name);
            assert(after.to_set().contains(name) <==> after.contains(name));
        }
        assert(after.to_set() =~= wider);
    } else {
        assert forall|name: Seq<char>| kept.to_set().contains(name) <==> wider.contains(name) by {
            assert(kept.to_set().contains(name) <==> kept.contains(name));
        }
        assert(kept.to_set() =~= wider);
    }
}

/// Whether one of `names` holds the text of `name`.
fn holds(names: &Vec<String>, name: &str) -> (found: bool)
    ensures
        found == owned_texts(names@).contains(name@),
{
    let mut i: usize = 0;
    while i < names.len()
        invariant
            i <= names.len(),
            forall|j: int| 0 <= j < i ==> owned_texts(names@)[j] != name@,
        decreases names.len() - i,
    {
        if same_text(names[i].as_str(), name) {
            assert(owned_texts(names@)[i as int] == name@);
            return true;
        }
        i = i + 1;
    }
    false
}

/// Whether `entry` ends in `/`.
fn container(entry: &str) -> (yes: bool)
    ensures
        yes == is_container(entry@),
{
    let n = entry.unicode_len();
    n > 0 && entry.get_char(n - 1) == '/'
}

impl Device {
    /// No attribute name is held twice.
    #[verifier::type_invariant]
    spec fn distinct(&self) -> bool {
        self.attrs matches Some(names) ==> owned_texts(names@).no_duplicates()
    }

    /// The device at `path`, not loaded.
    pub fn new(path: &str) -> (device: Self)
        ensures
            device@ == DeviceView::unloaded(path@),
    {
        Self { path: path.to_owned(), attrs: None }
    }

    /// Where the device is in the namespace of the bus.
    pub fn path(&self) -> (path: &str)
        ensures
            path@ == self@.path,
    {
        self.path.as_str()
    }

    /// Takes what reading the device's own path gave. A listing replaces the
    /// attribute names that the device had; a failed read leaves the device as
    /// it was and is handed back.
    pub fn load(&mut self, listing: Result<&str, Error>) -> (done: Result<(), Error>)
        ensures
            match listing {
                Ok(text) => done == Ok::<(), Error>(()) && final(self)@ == old(self)@.load(text@),
                Err(e) => done == Err::<(), Error>(e) && final(self)@ == old(self)@,
            },
    {
        match listing {
            Err(e) => Err(e),
            Ok(text) => {
                let entries = pieces(text, ',');
                let mut names: Vec<String> = Vec::new();
                let mut i: usize = 0;
                proof {
                    assert(owned_texts(names@).to_set() =~= kept_names(
                        texts(entries@).take(0),
                    ));
                }
                while i < entries.len()
                    invariant
                        i <= entries.len(),
                        texts(entries@) == split(text@, ','),
                        owned_texts(names@).no_duplicates(),
                        owned_texts(names@).to_set() == kept_names(
                            texts(entries@).take(i as int),
                        ),
                    decreases entries.len() - i,
                {
                    let entry = entries[i];
                    let ghost before = owned_texts(names@);
                    proof {
                        assert(texts(entries@)[i as int] == entry@);
                        assert(texts(entries@).take(i + 1) =~= texts(entries@).take(i as int).push(
                            entry@,
                        ));
                        lemma_keep_step(before, texts(entries@).take(i as int), entry@);
                    }
                    if !container(entry) && !holds(&names, entry) {
                        names.push(entry.to_owned());
                        assert(owned_texts(names@) =~= before.push(entry@));
                    }
                    i = i + 1;
                }
                proof {
                    assert(texts(entries@).take(i as int) =~= texts(entries@));
                }
                self.attrs = Some(names);
                Ok(())
            },
        }
    }

    /// The names of the device's attributes, each once, in no order that a
    /// caller may rely on. A device that was never loaded has none.
    pub fn attrs(&self) -> (names: Vec<&str>)
        ensures
            texts(names@).no_duplicates(),
            texts(names@).to_set() == self@.names(),
            self@.attrs is None ==> names@.len() == 0,
    {
        proof {
            use_type_invariant(self);
        }
        let mut out: Vec<&str> = Vec::new();
        match &self.attrs {
            None => {
                assert(texts(out@).to_set() =~= Set::<Seq<char>>::empty());
            },
            Some(held) => {
                let mut i: usize = 0;
                while i < held.len()
                    invariant
                        i <= held.len(),
                        texts(out@) == owned_texts(held@).take(i as int),
                    decreases held.len() - i,
                {
                    let name = held[i].as_str();
                    proof {
                        assert(texts(out@.push(name)) =~= texts(out@).push(name@));
                        assert(owned_texts(held@).take(i + 1) =~= owned_texts(held@).take(
                            i as int,
                        ).push(name@));
                    }
                    out.push(name);
                    i = i + 1;
                }
                assert(owned_texts(held@).take(i as int) =~= owned_texts(held@));
            },
        }
        out
    }

    /// Whether the device has an attribute `attr`. A device that was never
    /// loaded has none.
    pub fn has(&self, attr: &str) -> (present: bool)
        ensures
            present == self@.names().contains(attr@),
            self@.attrs is None ==> !present,
    {
        match &self.attrs {
            None => false,
            Some(held) => holds(held, attr),
        }
    }
    /// The path of the attribute `attr` of this device.
    pub fn attr_path(&self, attr: &str) -> (path: String)
        ensures
            path@ == attr_path(self@.path, attr@),
    {
        let mut path = self.path.clone();
        proof {
            reveal_strlit("/");
            assert("/"@ =~= seq!['/']);
        }
        path.append("/");
        path.append(attr);
        path
    }

    /// The request that reads the attribute `attr` of this device. Nothing
    /// is kept of an earlier answer: each call is a read of its own.
    pub fn get(&self, attr: &str) -> (request: Request)
        ensures
            request@ == (RequestView::Read { path: attr_path(self@.path, attr@) }),
    {
        Request::Read { path: self.attr_path(attr) }
    }

    /// The request that writes `value` to the attribute `attr` of this device.
    pub fn set(&self, attr: &str, value: &str) -> (request: Request)
        ensures
            request@ == (RequestView::Write {
                path: attr_path(self@.path, attr@),
                value: value@,
            }),
    {
        Request::Write { path: self.attr_path(attr), value: value.to_owned() }
    }

    /// Sums the device up from what reading its attributes `type` and
    /// `family` gave. Only a failed read of `type` fails, with the error of
    /// that read. A family that could not be read, or that is no number, is
    /// left out.
    pub fn info(&self, w1_type: Result<&str, Error>, family: Result<&str, Error>) -> (info: Result<
        DeviceInfo,
        Error,
    >)
        ensures
            match w1_type {
                Ok(t) => info matches Ok(i) && i@ == (DeviceInfoView {
                    w1_type: t@,
                    family: family_of(family),
                }),
                Err(e) => info == Err::<DeviceInfo, Error>(e),
            },
    {
        match w1_type {
            Err(e) => Err(e),
            Ok(t) => {
                let family = match family {
                    Ok(text) => parse(text),
                    Err(_) => None,
                };
                Ok(DeviceInfo { w1_type: t.to_owned(), family })
            },
        }
    }
}

/// The family code in what reading the attribute `family` gave: the number
/// that the text writes, if it was read and writes one.
pub open spec fn family_of(family: Result<&str, Error>) -> Option<u32> {
    match family {
        Ok(text) => parse_u32(text@),
        Err(_) => None,
    }
}

/// What a device declares of itself.
#[derive(Debug, Clone)]
pub struct DeviceInfo {
    w1_type: String,
    family: Option<u32>,
}

/// A device's summary as the contracts see it.
pub struct DeviceInfoView {
    pub w1_type: Seq<char>,
    pub family: Option<u32>,
}

impl View for DeviceInfo {
    type V = DeviceInfoView;

    closed spec fn view(&self) -> DeviceInfoView {
        DeviceInfoView { w1_type: self.w1_type@, family: self.family }
    }
}

impl DeviceInfo {
    /// The type that the device declares.
    pub fn w1_type(&self) -> (w1_type: &str)
        ensures
            w1_type@ == self@.w1_type,
    {
        self.w1_type.as_str()
    }

    /// The family code of the device, where it is known.
    pub fn family(&self) -> (family: Option<u32>)
        ensures
            family == self@.family,
    {
        self.family
    }
}

impl Clone for Device {
    fn clone(&self) -> (copy: Self)
        ensures
            copy@ == self@,
    {
        proof {
            use_type_invariant(self);
        }
        let attrs = match &self.attrs {
            None => None,
            Some(held) => {
                let mut names: Vec<String> = Vec::new();
                let mut i: usize = 0;
                while i < held.len()
                    invariant
                        i <= held.len(),
                        owned_texts(names@) == owned_texts(held@).take(i as int),
                    decreases held.len() - i,
                {
                    let name = held[i].clone();
                    proof {
                        assert(owned_texts(names@.push(name)) =~= owned_texts(names@).push(name@));
                        assert(owned_texts(held@).take(i + 1) =~= owned_texts(held@).take(
                            i as int,
                        ).push(name@));
                    }
                    names.push(name);
                    i = i + 1;
                }
                assert(owned_texts(held@).take(i as int) =~= owned_texts(held@));
                Some(names)
            },
        };
        Self { path: self.path.clone(), attrs }
    }
}

} // verus!
