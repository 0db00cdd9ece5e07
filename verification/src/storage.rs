//! The file-backed calendar directory, as the engine knows it: a directory
//! path and a calendar name. All reading and writing of the directory is
//! the application's business; the library only derives the path an event's
//! file lives at.

use vstd::prelude::*;

use crate::event::EventId;

verus! {

/// A directory of one-event `.ics` files holding one calendar.
#[derive(Clone, Debug)]
pub struct LocalDir {
    /// The directory's path.
    pub dir: String,
    /// The calendar name given to events parsed from the directory.
    pub calendar: String,
}

impl LocalDir {
    /// A calendar directory at the given path.
    pub fn new(dir: String, calendar: String) -> (r: LocalDir)
        ensures
            r.dir == dir,
            r.calendar == calendar,
    {
        LocalDir { dir, calendar }
    }

    /// The path of the file holding the event: the directory, a separator,
    /// the event's id and the `.ics` suffix.
    pub fn event_path(&self, event_id: &EventId) -> (r: String)
        ensures
            r@ == self.dir@ + "/"@ + event_id@ + ".ics"@,
    {
        let mut path = self.dir.clone();
        path.append("/");
        path.append(event_id.as_str());
        path.append(".ics");
        proof {
            assert(path@ =~= self.dir@ + "/"@ + event_id@ + ".ics"@);
        }
        path
    }
}

} // verus!
