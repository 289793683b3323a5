//! Compact history cell for replayed generic tool calls.

use vstd::prelude::*;

use crate::json::Json;
use crate::text;

verus! {

#[derive(Clone, Copy, Debug, PartialEq, Eq, Structural)]
pub enum DynamicToolCallStatus {
    InProgress,
    Completed,
    Failed,
}

pub struct DynamicToolCallCell {
    pub namespace: Option<String>,
    pub tool: String,
    pub arguments: Json,
    pub status: DynamicToolCallStatus,
}

/// The first entry with the given key.
pub open spec fn entry_index(entries: Seq<(String, Json)>, key: Seq<char>) -> int
    decreases entries.len(),
{
    if entries.len() == 0 || entries[0].0@ == key {
        0
    } else {
        1 + entry_index(entries.skip(1), key)
    }
}

/// The text that an object holds under a key.
pub open spec fn text_entry(value: Json, key: Seq<char>) -> Option<Seq<char>> {
    match value {
        Json::Object(entries) => {
            let i = entry_index(entries@, key);
            if 0 <= i < entries@.len() {
                match entries@[i].1 {
                    Json::Text(t) => Some(t@),
                    _ => None,
                }
            } else {
                None
            }
        },
        _ => None,
    }
}

pub fn get_text<'a>(value: &'a Json, key: &str) -> (r: Option<&'a String>)
    ensures
        match r {
            Some(t) => text_entry(*value, key@) == Some(t@),
            None => text_entry(*value, key@) is None,
        },
{
    match value {
        Json::Object(entries) => {
            let mut i: usize = 0;
            proof {
                assert(entries@.skip(0) =~= entries@);
            }
            while i < entries.len()
                invariant
                    *value == Json::Object(*entries),
                    i <= entries@.len(),
                    i + entry_index(entries@.skip(i as int), key@) == entry_index(entries@, key@),
                decreases entries@.len() - i,
            {
                proof {
                    assert(entries@.skip(i as int).skip(1) =~= entries@.skip(i + 1));
                }
                if text::text_is(entries[i].0.as_str(), key) {
                    return match &entries[i].1 {
                        Json::Text(t) => Some(t),
                        _ => None,
                    };
                }
                i += 1;
            }
            None
        },
        _ => None,
    }
}

impl DynamicToolCallCell {
    pub open spec fn label_text(&self) -> Seq<char> {
        match self.namespace {
            Some(namespace) => namespace@ + "."@ + self.tool@,
            None => self.tool@,
        }
    }

    /// The command of an `exec_command` call.
    pub open spec fn command_text(&self) -> Option<Seq<char>> {
        if self.tool@ == "exec_command"@ {
            text_entry(self.arguments, "cmd"@)
        } else {
            None
        }
    }

    /// What the cell says.
    pub open spec fn sentence(&self) -> Seq<char> {
        (match self.status {
            DynamicToolCallStatus::InProgress => "Tool call unfinished: "@,
            DynamicToolCallStatus::Completed => "Called "@,
            DynamicToolCallStatus::Failed => "Tool call failed: "@,
        }) + self.label_text() + (match self.command_text() {
            Some(command) => ": "@ + command,
            None => Seq::empty(),
        })
    }

    pub fn new(
        namespace: Option<String>,
        tool: String,
        arguments: Json,
        status: DynamicToolCallStatus,
    ) -> (r: Self)
        ensures
            r == (DynamicToolCallCell { namespace, tool, arguments, status }),
    {
        DynamicToolCallCell { namespace, tool, arguments, status }
    }

    pub fn completed_label(&self) -> (r: Option<String>)
        ensures
            r is Some <==> self.status == DynamicToolCallStatus::Completed,
            r matches Some(label) ==> label@ == self.label_text(),
    {
        if self.status == DynamicToolCallStatus::Completed {
            Some(self.label())
        } else {
            None
        }
    }

    pub fn label(&self) -> (r: String)
        ensures
            r@ == self.label_text(),
    {
        match &self.namespace {
            Some(namespace) => {
                let mut out = namespace.clone();
                out.append(".");
                out.append(self.tool.as_str());
                out
            },
            None => self.tool.clone(),
        }
    }

    pub fn command_detail(&self) -> (r: Option<&String>)
        ensures
            match r {
                Some(command) => self.command_text() == Some(command@),
                None => self.command_text() is None,
            },
    {
        if text::text_is(self.tool.as_str(), "exec_command") {
            get_text(&self.arguments, "cmd")
        } else {
            None
        }
    }

    pub fn text(&self) -> (r: String)
        ensures
            r@ == self.sentence(),
    {
        let mut out = String::new();
        out.append(
            match self.status {
                DynamicToolCallStatus::InProgress => "Tool call unfinished: ",
                DynamicToolCallStatus::Completed => "Called ",
                DynamicToolCallStatus::Failed => "Tool call failed: ",
            },
        );
        out.append(self.label().as_str());
        if let Some(command) = self.command_detail() {
            out.append(": ");
            out.append(command.as_str());
        }
        proof {
            assert(out@ =~= self.sentence());
        }
        out
    }

    /// The lines of the plain form.
    pub fn raw_lines(&self) -> (r: Vec<String>)
        ensures
            text::views(r@) == text::lines_of(self.sentence()),
    {
        text::lines(text::chars_of(self.text().as_str()).as_slice())
    }
}

pub fn new_dynamic_tool_call(
    namespace: Option<String>,
    tool: String,
    arguments: Json,
    status: DynamicToolCallStatus,
) -> (r: DynamicToolCallCell)
    ensures
        r == (DynamicToolCallCell { namespace, tool, arguments, status }),
{
    DynamicToolCallCell::new(namespace, tool, arguments, status)
}

} // verus!
