//! Records as they stand in repository-definition and history files.

use vstd::prelude::*;
use vstd::string::StringExecFns;

verus! {

/// One repository as a definition file declares it.
#[derive(Debug)]
pub struct RepoDefinition {
    pub name: String,
    pub enabled: bool,
    pub baseurl: Option<String>,
    pub metalink: Option<String>,
    pub mirrorlist: Option<String>,
    pub gpgcheck: bool,
    pub gpgkey: Option<Vec<String>>,
    pub priority: Option<u32>,
}

/// One record of the transaction log.
#[derive(Debug)]
pub struct HistorySchema {
    pub id: i64,
    pub timestamp: String,
    pub user_id: u32,
    pub command: String,
    pub return_code: i32,
    pub packages_altered: Vec<String>,
}

impl RepoDefinition {
    /// Whether the definition names no source at all.
    pub open spec fn lacks_source(&self) -> bool {
        self.baseurl is None && self.metalink is None && self.mirrorlist is None
    }

    /// Whether signatures are to be checked but no key is given.
    pub open spec fn lacks_key(&self) -> bool {
        self.gpgcheck && self.gpgkey is None
    }

    /// Why the definition is refused, if it is.
    pub open spec fn complaint(&self) -> Option<Seq<char>> {
        if self.lacks_source() {
            Some(
                "Repository '"@ + self.name@
                    + "' must specify at least one of: baseurl, metalink, mirrorlist"@,
            )
        } else if self.lacks_key() {
            Some(
                "Repository '"@ + self.name@ + "' has gpgcheck enabled but no gpgkey specified"@,
            )
        } else {
            None
        }
    }

    /// Accepts the definition or says why it is refused: it must name a
    /// source, and a key when signatures are checked.
    pub fn validate(&self) -> (r: Result<(), String>)
        ensures
            match r {
                Ok(_) => self.complaint() is None,
                Err(msg) => self.complaint() == Some(msg@),
            },
    {
        if self.baseurl.is_none() && self.metalink.is_none() && self.mirrorlist.is_none() {
            let mut msg = String::from_str("Repository '");
            msg.append(self.name.as_str());
            msg.append("' must specify at least one of: baseurl, metalink, mirrorlist");
            return Err(msg);
        }
        if self.gpgcheck && self.gpgkey.is_none() {
            let mut msg = String::from_str("Repository '");
            msg.append(self.name.as_str());
            msg.append("' has gpgcheck enabled but no gpgkey specified");
            return Err(msg);
        }
        Ok(())
    }
}

} // verus!
