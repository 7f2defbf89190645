//! The filter of a scan: which devices the caller asks for.

use vstd::prelude::*;
use crate::device::{Device, DeviceView};
use crate::text::{same_text, texts};

verus! {

/// Which devices a scan keeps. Each of the three conditions may be absent,
/// and then asks nothing; a device is kept if it meets all that are present.
pub struct ScanOptions<'a> {
    types: Option<&'a [&'a str]>,
    attrs_any: Option<&'a [&'a str]>,
    attrs_all: Option<&'a [&'a str]>,
}

/// The filter as the contracts see it: each condition a set of texts.
pub struct OptionsView {
    /// The device's type must be one of these.
    pub types: Option<Set<Seq<char>>>,
    /// The device must have at least one of these attributes.
    pub attrs_any: Option<Set<Seq<char>>>,
    /// The device must have every one of these attributes.
    pub attrs_all: Option<Set<Seq<char>>>,
}

impl OptionsView {
    /// The filter that asks nothing.
    pub open spec fn none() -> OptionsView {
        OptionsView { types: None, attrs_any: None, attrs_all: None }
    }

    /// Whether the filter keeps `device`, given the type that the device
    /// declares, where it could be read. A filter by type rejects a device
    /// whose type is not known; a filter without one does not look at it.
    /// The attributes of a device that was never loaded count as none.
    pub open spec fn accepts(self, device: DeviceView, w1_type: Option<Seq<char>>) -> bool {
        &&& self.types matches Some(types) ==> (w1_type matches Some(t) && types.contains(t))
        &&& self.attrs_all matches Some(all) ==> all.subset_of(device.names())
        &&& self.attrs_any matches Some(any) ==> meet(any, device.names())
    }
}

/// Whether the two sets have a name in common.
pub open spec fn meet(a: Set<Seq<char>>, b: Set<Seq<char>>) -> bool {
    exists|name: Seq<char>| a.contains(name) && b.contains(name)
}

/// The filter that asks nothing keeps every device.
pub proof fn lemma_none_accepts_all(device: DeviceView, w1_type: Option<Seq<char>>)
    ensures
        OptionsView::none().accepts(device, w1_type),
{
}

/// A device that was never loaded meets no condition on attributes: a filter
/// with a list of which one attribute suffices rejects it, and so does a
/// filter that asks for every attribute of a list that is not empty.
pub proof fn lemma_unloaded_meets_no_list(
    options: OptionsView,
    path: Seq<char>,
    w1_type: Option<Seq<char>>,
    name: Seq<char>,
)
    ensures
        options.attrs_any is Some ==> !options.accepts(DeviceView::unloaded(path), w1_type),
        options.attrs_all matches Some(all) && all.contains(name) ==> !options.accepts(
            DeviceView::unloaded(path),
            w1_type,
        ),
{
}

/// A filter by type rejects a device whose type is not known.
pub proof fn lemma_type_must_be_known(options: OptionsView, device: DeviceView)
    ensures
        options.types is Some ==> !options.accepts(device, None),
{
}

/// The text of a string slice that may be absent.
pub open spec fn text_of(t: Option<&str>) -> Option<Seq<char>> {
    match t {
        Some(t) => Some(t@),
        None => None,
    }
}

/// The set of the texts in a list that may be absent.
pub open spec fn names_of(list: Option<&[&str]>) -> Option<Set<Seq<char>>> {
    match list {
        Some(list) => Some(texts(list@).to_set()),
        None => None,
    }
}

impl<'a> View for ScanOptions<'a> {
    type V = OptionsView;

    closed spec fn view(&self) -> OptionsView {
        OptionsView {
            types: names_of(self.types),
            attrs_any: names_of(self.attrs_any),
            attrs_all: names_of(self.attrs_all),
        }
    }
}

impl<'a> Default for ScanOptions<'a> {
    fn default() -> (options: Self)
        ensures
            options@ == OptionsView::none(),
    {
        Self { types: None, attrs_any: None, attrs_all: None }
    }
}

/// Whether `name` is one of `names`.
fn listed(names: &[&str], name: &str) -> (found: bool)
    ensures
        found == texts(names@).to_set().contains(name@),
{
    let mut i: usize = 0;
    while i < names.len()
        invariant
            i <= names.len(),
            forall|j: int| 0 <= j < i ==> texts(names@)[j] != name@,
        decreases names.len() - i,
    {
        if same_text(names[i], name) {
            assert(texts(names@)[i as int] == name@);
            return true;
        }
        i = i + 1;
    }
    false
}

/// Whether `device` has every attribute of `names`.
fn has_all(device: &Device, names: &[&str]) -> (all: bool)
    ensures
        all == texts(names@).to_set().subset_of(device@.names()),
{
    let mut i: usize = 0;
    while i < names.len()
        invariant
            i <= names.len(),
            forall|j: int| 0 <= j < i ==> device@.names().contains(texts(names@)[j]),
        decreases names.len() - i,
    {
        assert(texts(names@)[i as int] == names@[i as int]@);
        if !device.has(names[i]) {
            assert(texts(names@).to_set().contains(texts(names@)[i as int]));
            return false;
        }
        i = i + 1;
    }
    assert forall|name: Seq<char>| texts(names@).to_set().contains(name) implies device@.names()
        .contains(name) by {
        let j = choose|j: int| 0 <= j < texts(names@).len() && texts(names@)[j] == name;
        assert(device@.names().contains(texts(names@)[j]));
    }
    true
}

/// Whether `device` has at least one attribute of `names`.
fn has_any(device: &Device, names: &[&str]) -> (any: bool)
    ensures
        any == meet(texts(names@).to_set(), device@.names()),
{
    let mut i: usize = 0;
    while i < names.len()
        invariant
            i <= names.len(),
            forall|j: int| 0 <= j < i ==> !device@.names().contains(texts(names@)[j]),
        decreases names.len() - i,
    {
        assert(texts(names@)[i as int] == names@[i as int]@);
        if device.has(names[i]) {
            assert(texts(names@).to_set().contains(texts(names@)[i as int]));
            return true;
        }
        i = i + 1;
    }
    assert forall|name: Seq<char>| texts(names@).to_set().contains(name) implies !device@.names()
        .contains(name) by {
        let j = choose|j: int| 0 <= j < texts(names@).len() && texts(names@)[j] == name;
        assert(!device@.names().contains(texts(names@)[j]));
    }
    false
}

impl<'a> ScanOptions<'a> {
    /// The filter that asks nothing: it keeps every device.
    pub fn new() -> (options: Self)
        ensures
            options@ == OptionsView::none(),
    {
        Self { types: None, attrs_any: None, attrs_all: None }
    }

    /// Keeps only devices whose type is one of `types`.
    pub fn types(self, types: &'a [&'a str]) -> (options: Self)
        ensures
            options@ == (OptionsView { types: Some(texts(types@).to_set()), ..self@ }),
    {
        let mut options = self;
        options.types = Some(types);
        options
    }

    /// Keeps only devices that have every attribute of `attrs_all`.
    pub fn attrs_all(self, attrs_all: &'a [&'a str]) -> (options: Self)
        ensures
            options@ == (OptionsView { attrs_all: Some(texts(attrs_all@).to_set()), ..self@ }),
    {
        let mut options = self;
        options.attrs_all = Some(attrs_all);
        options
    }

    /// Keeps only devices that have at least one attribute of `attrs_any`.
    pub fn attrs_any(self, attrs_any: &'a [&'a str]) -> (options: Self)
        ensures
            options@ == (OptionsView { attrs_any: Some(texts(attrs_any@).to_set()), ..self@ }),
    {
        let mut options = self;
        options.attrs_any = Some(attrs_any);
        options
    }

    /// Whether the filter asks for the device's type, so that a scan has to
    /// read it.
    pub fn wants_type(&self) -> (wanted: bool)
        ensures
            wanted == (self@.types is Some),
    {
        self.types.is_some()
    }

    /// Whether the filter keeps `device`. `w1_type` is the type that the
    /// device declares: `None` where it was not read or the read failed.
    pub fn matches(&self, device: &Device, w1_type: Option<&str>) -> (accepted: bool)
        ensures
            accepted == self@.accepts(device@, text_of(w1_type)),
    {
        if let Some(types) = self.types {
            match w1_type {
                Some(t) => {
                    if !listed(types, t) {
                        return false;
                    }
                },
                None => {
                    return false;
                },
            }
        }
        if let Some(all) = self.attrs_all {
            if !has_all(device, all) {
                return false;
            }
        }
        if let Some(any) = self.attrs_any {
            if !has_any(device, any) {
                return false;
            }
        }
        true
    }
}

} // verus!
