use vstd::prelude::*;
use crate::message::{IcedWryMessage, WebviewUpdateMessage};
use std::collections::BTreeMap;
use std::sync::mpsc::{Receiver, Sender};

verus! {

broadcast use vstd::std_specs::btree::group_btree_axioms, vstd::laws_cmp::group_laws_cmp;

/// std's sending half of a channel, carried through without looking inside.
#[verifier::external_type_specification]
#[verifier::external_body]
#[verifier::reject_recursive_types(T)]
pub struct ExSender<T>(Sender<T>);

/// std's receiving half of a channel, carried through without looking inside.
#[verifier::external_type_specification]
#[verifier::external_body]
#[verifier::reject_recursive_types(T)]
pub struct ExReceiver<T>(Receiver<T>);

/// Relies on std::sync::mpsc::channel, which creates a new channel and
/// returns its sending and its receiving half.
pub assume_specification<T>[ std::sync::mpsc::channel::<T> ]() -> (Sender<T>, Receiver<T>);

/// Hands out identifiers for managers and webviews: each is handed out at
/// most once, in increasing order, starting from 1.
pub struct IdCounter {
    next: usize,
}

impl IdCounter {
    /// The identifier that the next request receives.
    pub closed spec fn next(&self) -> usize {
        self.next
    }

    /// A counter that starts at 1.
    pub fn new() -> (r: IdCounter)
        ensures
            r.next() == 1,
    {
        IdCounter { next: 1 }
    }

    /// Takes the next identifier; `None` once every identifier has been
    /// handed out, so that none is ever handed out twice.
    pub fn increment_id(&mut self) -> (r: Option<usize>)
        ensures
            old(self).next() < usize::MAX ==> r == Some(old(self).next()) && final(self).next()
                == old(self).next() + 1,
            old(self).next() == usize::MAX ==> r is None && final(self).next() == old(
                self,
            ).next(),
    {
        if self.next < usize::MAX {
            let id = self.next;
            self.next = self.next + 1;
            Some(id)
        } else {
            None
        }
    }
}

/// The webviews of one manager, keyed by their identifiers.
///
/// `W` is the handle through which the webview itself is reached.
pub struct IcedWebviewManager<W> {
    manager_id: usize,
    webviews: BTreeMap<usize, W>,
}

impl<W> View for IcedWebviewManager<W> {
    type V = Map<usize, W>;

    /// Maps each live webview's identifier to its handle.
    closed spec fn view(&self) -> Map<usize, W> {
        self.webviews@
    }
}

impl<W> IcedWebviewManager<W> {
    /// The identifier of this manager, which tells its visibility passes apart
    /// from those of other managers.
    pub closed spec fn spec_manager_id(&self) -> usize {
        self.manager_id
    }

    /// A manager with no webview, under a fresh identifier from `ids`;
    /// `None` once `ids` has none left.
    pub fn new(ids: &mut IdCounter) -> (r: Option<IcedWebviewManager<W>>)
        ensures
            old(ids).next() < usize::MAX ==> r is Some && final(ids).next() == old(ids).next() + 1,
            old(ids).next() == usize::MAX ==> r is None && final(ids).next() == old(ids).next(),
            r matches Some(m) ==> m.spec_manager_id() == old(ids).next() && m@ == Map::<
                usize,
                W,
            >::empty(),
    {
        match ids.increment_id() {
            Some(manager_id) => Some(IcedWebviewManager { manager_id, webviews: BTreeMap::new() }),
            None => None,
        }
    }

    /// The identifier of this manager.
    pub fn manager_id(&self) -> (r: usize)
        ensures
            r == self.spec_manager_id(),
    {
        self.manager_id
    }

    /// Keeps `webview` under a fresh identifier from `ids` and returns that
    /// identifier; `None`, with nothing kept, once `ids` has none left.
    pub fn insert_webview(&mut self, ids: &mut IdCounter, webview: W) -> (r: Option<usize>)
        ensures
            final(self).spec_manager_id() == old(self).spec_manager_id(),
            old(ids).next() < usize::MAX ==> {
                &&& r == Some(old(ids).next())
                &&& final(ids).next() == old(ids).next() + 1
                &&& final(self)@ == old(self)@.insert(old(ids).next(), webview)
            },
            old(ids).next() == usize::MAX ==> {
                &&& r is None
                &&& final(ids).next() == old(ids).next()
                &&& final(self)@ == old(self)@
            },
    {
        match ids.increment_id() {
            Some(id) => {
                self.webviews.insert(id, webview);
                Some(id)
            },
            None => None,
        }
    }

    /// The webview kept under `id`, if any.
    pub fn get(&self, id: usize) -> (r: Option<&W>)
        ensures
            r matches Some(w) ==> self@.contains_key(id) && *w == self@[id],
            r is None ==> !self@.contains_key(id),
    {
        self.webviews.get(&id)
    }

    /// Resolves the webviews named by `msg`: for each identifier, in order,
    /// the webview to hide, or `None` where no webview is kept under it.
    pub fn update(&self, msg: IcedWryMessage) -> (r: Vec<(usize, Option<&W>)>)
        ensures
            ({
                let IcedWryMessage::HideWebviews(ids) = msg;
                &&& r@.len() == ids@.len()
                &&& forall|i: int|
                    0 <= i < ids@.len() ==> {
                        &&& (#[trigger] r@[i]).0 == ids@[i]
                        &&& r@[i].1 matches Some(w) ==> self@.contains_key(ids@[i]) && *w
                            == self@[ids@[i]]
                        &&& r@[i].1 is None ==> !self@.contains_key(ids@[i])
                    }
            }),
    {
        let IcedWryMessage::HideWebviews(ids) = msg;
        let mut r: Vec<(usize, Option<&W>)> = Vec::new();
        let mut i: usize = 0;
        while i < ids.len()
            invariant
                i <= ids@.len(),
                r@.len() == i,
                forall|j: int|
                    0 <= j < i ==> {
                        &&& (#[trigger] r@[j]).0 == ids@[j]
                        &&& r@[j].1 matches Some(w) ==> self@.contains_key(ids@[j]) && *w
                            == self@[ids@[j]]
                        &&& r@[j].1 is None ==> !self@.contains_key(ids@[j])
                    },
            decreases ids@.len() - i,
        {
            let id = ids[i];
            r.push((id, self.get(id)));
            i += 1;
        }
        r
    }

    /// Forgets every webview.
    pub fn reset(&mut self)
        ensures
            final(self).spec_manager_id() == old(self).spec_manager_id(),
            final(self)@ == Map::<usize, W>::empty(),
    {
        self.webviews.clear();
    }
}

/// A sender of updates for webviews, each paired with the identifier of the
/// webview it is meant for. The receiving half is dropped at once, so every
/// send through it fails.
pub fn get_updater() -> Sender<(usize, WebviewUpdateMessage)> {
    let (sender, _receiver) = std::sync::mpsc::channel();
    sender
}

} // verus!
