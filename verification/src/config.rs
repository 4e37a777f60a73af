use vstd::prelude::*;

use crate::json::{
    items_or_none, json_document, json_model, json_models, lemma_json_models, member, member_of,
    member_text, parse_json, text_or_empty, JsonModel, JsonValue,
};

verus! {

/// What the tool reads of one server of a server list file.
pub struct ServerEntry {
    /// The server's `name`, or empty where the file gives no string.
    pub name: String,
    /// The server's `description`, or empty where the file gives no string.
    pub description: String,
}

/// What the tool reads of a server list file.
pub struct ServerList {
    /// The list's `username`, or empty where the file gives no string.
    pub username: String,
    /// One entry per element of the `servers` array; none where `servers` is no array.
    pub servers: Vec<ServerEntry>,
}

/// The model of a server entry.
pub struct EntryModel {
    pub name: Seq<char>,
    pub description: Seq<char>,
}

/// The model of a server list.
pub struct ServerListModel {
    pub username: Seq<char>,
    pub servers: Seq<EntryModel>,
}

impl View for ServerEntry {
    type V = EntryModel;

    open spec fn view(&self) -> EntryModel {
        EntryModel { name: self.name@, description: self.description@ }
    }
}

impl View for ServerList {
    type V = ServerListModel;

    open spec fn view(&self) -> ServerListModel {
        ServerListModel {
            username: self.username@,
            servers: self.servers@.map_values(|e: ServerEntry| e@),
        }
    }
}

/// The model of the outcome of reading a server list: the list, or the parser's message.
pub open spec fn read_model(r: Result<ServerList, String>) -> Result<ServerListModel, Seq<char>> {
    match r {
        Ok(list) => Ok(list@),
        Err(message) => Err(message@),
    }
}

/// What the tool reads of one element of `servers`: its `name` and `description` where
/// they are strings, empty text otherwise.
pub open spec fn entry_of(v: JsonModel) -> EntryModel {
    EntryModel {
        name: text_or_empty(member(v, "name"@)),
        description: text_or_empty(member(v, "description"@)),
    }
}

/// What the tool reads of a server list document: its `username` where it is a string
/// (empty text otherwise), and one entry per element of its `servers` member where that
/// is an array (no servers otherwise).
pub open spec fn server_list_of(doc: JsonModel) -> ServerListModel {
    ServerListModel {
        username: text_or_empty(member(doc, "username"@)),
        servers: items_or_none(member(doc, "servers"@)).map_values(|v: JsonModel| entry_of(v)),
    }
}

/// What a text of a server list file reads as: the list that its JSON document holds, or
/// the parser's message.
pub open spec fn json_server_list(text: Seq<char>) -> Result<ServerListModel, Seq<char>> {
    match json_document(text) {
        Ok(doc) => Ok(server_list_of(doc)),
        Err(message) => Err(message),
    }
}

/// Reads one element of `servers`.
fn read_entry(v: &JsonValue) -> (entry: ServerEntry)
    ensures
        entry@ == entry_of(json_model(*v)),
{
    ServerEntry { name: member_text(v, "name"), description: member_text(v, "description") }
}

/// Reads a server list from its JSON document.
pub fn read_server_list(doc: &JsonValue) -> (list: ServerList)
    ensures
        list@ == server_list_of(json_model(*doc)),
{
    let username = member_text(doc, "username");
    let mut servers: Vec<ServerEntry> = Vec::new();
    let ghost target = items_or_none(member(json_model(*doc), "servers"@));
    match member_of(doc, "servers") {
        Some(JsonValue::Array(items)) => {
            proof {
                lemma_json_models(items@);
            }
            let mut i: usize = 0;
            while i < items.len()
                invariant
                    i <= items.len(),
                    target == json_models(items@),
                    target.len() == items@.len(),
                    forall|k: int| 0 <= k < items@.len() ==> #[trigger] target[k] == json_model(items@[k]),
                    servers@.map_values(|e: ServerEntry| e@) == target.subrange(0, i as int).map_values(
                        |v: JsonModel| entry_of(v),
                    ),
                decreases items.len() - i,
            {
                let ghost before = servers@;
                servers.push(read_entry(&items[i]));
                assert(servers@.map_values(|e: ServerEntry| e@) =~= before.map_values(
                    |e: ServerEntry| e@,
                ).push(entry_of(target[i as int])));
                assert(target.subrange(0, i + 1).map_values(|v: JsonModel| entry_of(v))
                    =~= target.subrange(0, i as int).map_values(|v: JsonModel| entry_of(v)).push(
                    entry_of(target[i as int]),
                ));
                i += 1;
            }
            assert(target.subrange(0, items.len() as int) =~= target);
        },
        _ => {
            assert(target =~= Seq::<JsonModel>::empty());
        },
    }
    let list = ServerList { username, servers };
    assert(list@.servers =~= server_list_of(json_model(*doc)).servers);
    list
}

/// Reads the text of a server list file: parses it as JSON and reads the list from it.
pub fn parse_server_list(text: &str) -> (r: Result<ServerList, String>)
    ensures
        read_model(r) == json_server_list(text@),
{
    match parse_json(text) {
        Ok(doc) => Ok(read_server_list(&doc)),
        Err(message) => Err(message),
    }
}

} // verus!
