//! Where a directory scan hands over what it finds.
//!
//! A scan hands over its items one by one, so that they can be shown while it is still
//! running, and asks before each whether it is to go on.

use crate::file_item::FileItem;
use vstd::prelude::*;

verus! {

/// What a scan has found so far, and whether it is to go on.
pub struct Sink {
    /// The items that were handed over and not yet taken.
    pub found: Vec<FileItem>,
    /// The scan is to stop.
    pub stop: bool,
}

impl Sink {
    /// A sink that has received nothing.
    pub fn new() -> (sink: Self)
        ensures
            sink.found@ == Seq::<FileItem>::empty(),
            !sink.stop,
    {
        Sink { found: Vec::new(), stop: false }
    }

    /// Hands over one item.
    pub fn push(&mut self, item: FileItem)
        ensures
            final(self).found@ == old(self).found@.push(item),
            final(self).stop == old(self).stop,
    {
        self.found.push(item);
    }

    /// Whether the scan is to stop.
    pub fn is_cancelled(&self) -> (stop: bool)
        ensures
            stop == self.stop,
    {
        self.stop
    }

    /// Takes what was handed over, in order.
    pub fn take(&mut self) -> (items: Vec<FileItem>)
        ensures
            items@ == old(self).found@,
            final(self).found@ == Seq::<FileItem>::empty(),
            final(self).stop == old(self).stop,
    {
        let mut items: Vec<FileItem> = Vec::new();
        std::mem::swap(&mut items, &mut self.found);
        items
    }
}

} // verus!
