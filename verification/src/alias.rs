//! One catalog record: a name bound to a command, with optional description
//! and group, and creation/update instants held as Unix seconds.

use vstd::prelude::*;

verus! {

/// An alias record as the catalog holds it. The translation subsystem only
/// reads `name` and `command`.
#[derive(Debug)]
pub struct Alias {
    pub name: String,
    pub command: String,
    pub description: Option<String>,
    pub group: Option<String>,
    pub created_at: i64,
    pub updated_at: i64,
}

/// Relies on chrono's `From<SystemTime>` conversion and
/// `DateTime::timestamp`: the current time as whole Unix seconds, negative
/// when the system clock reads before the epoch. Nothing is promised of the
/// clock's value.
#[verifier::external_body]
pub fn now_timestamp() -> i64 {
    chrono::DateTime::<chrono::Utc>::from(std::time::SystemTime::now()).timestamp()
}

impl Alias {
    /// A fresh record: no description, no group, both instants the moment of
    /// creation.
    pub fn new(name: String, command: String) -> (r: Alias)
        ensures
            r.name == name,
            r.command == command,
            r.description is None,
            r.group is None,
            r.created_at == r.updated_at,
    {
        let now = now_timestamp();
        Alias {
            name,
            command,
            description: None,
            group: None,
            created_at: now,
            updated_at: now,
        }
    }

    /// The same record with a description attached.
    pub fn with_description(self, description: String) -> (r: Alias)
        ensures
            r.name == self.name,
            r.command == self.command,
            r.description == Some(description),
            r.group == self.group,
            r.created_at == self.created_at,
            r.updated_at == self.updated_at,
    {
        Alias { description: Some(description), ..self }
    }

    /// The same record with a group attached.
    pub fn with_group(self, group: String) -> (r: Alias)
        ensures
            r.name == self.name,
            r.command == self.command,
            r.description == self.description,
            r.group == Some(group),
            r.created_at == self.created_at,
            r.updated_at == self.updated_at,
    {
        Alias { group: Some(group), ..self }
    }

    /// Replace the command and move the update instant to now.
    pub fn update_command(&mut self, command: String)
        ensures
            final(self).name == old(self).name,
            final(self).command == command,
            final(self).description == old(self).description,
            final(self).group == old(self).group,
            final(self).created_at == old(self).created_at,
    {
        self.command = command;
        self.updated_at = now_timestamp();
    }
}

impl Clone for Alias {
    /// A field-for-field copy.
    fn clone(&self) -> (r: Self)
        ensures
            r == *self,
    {
        let description = match &self.description {
            Some(d) => Some(d.clone()),
            None => None,
        };
        let group = match &self.group {
            Some(g) => Some(g.clone()),
            None => None,
        };
        Alias {
            name: self.name.clone(),
            command: self.command.clone(),
            description,
            group,
            created_at: self.created_at,
            updated_at: self.updated_at,
        }
    }
}

/// The (name, command) views of a record sequence, what rendering consumes.
pub open spec fn records_view(rs: Seq<Alias>) -> Seq<(Seq<char>, Seq<char>)> {
    rs.map_values(|a: Alias| (a.name@, a.command@))
}

} // verus!
