use vstd::prelude::*;

use crate::config::{EntryModel, ServerEntry, ServerList, ServerListModel};
use crate::text::texts;
use crate::validations::item_models;

verus! {

/// How the server lists to use are picked, given how many files passed their check.
pub enum ListChoice {
    /// No file passed: offer to create one.
    OfferSetup,
    /// Exactly one passed: use it, at this path.
    UseOnly(String),
    /// Several passed: let the user pick among them.
    AskUser,
}

/// Picks how to choose the server lists: none to offer setup for, the only one, or a
/// question to the user.
pub fn choose_server_lists(valid: &Vec<(String, String, String)>) -> (choice: ListChoice)
    ensures
        valid.len() == 0 ==> choice is OfferSetup,
        valid.len() == 1 ==> (choice matches ListChoice::UseOnly(path) && path@ == valid@[0].0@),
        valid.len() > 1 ==> choice is AskUser,
{
    if valid.len() == 0 {
        ListChoice::OfferSetup
    } else if valid.len() == 1 {
        ListChoice::UseOnly(valid[0].0.clone())
    } else {
        ListChoice::AskUser
    }
}

/// The value of the menu entry that stands for every server of the list.
pub open spec fn select_all() -> Seq<char> {
    "select all"@
}

/// The menu item of a server: its name as value and label, its description as hint.
pub open spec fn server_item(e: EntryModel) -> (Seq<char>, Seq<char>, Seq<char>) {
    (e.name, e.name, e.description)
}

/// The server menu of a list: "select all" first, then each server in file order.
pub open spec fn server_menu(list: ServerListModel) -> Seq<(Seq<char>, Seq<char>, Seq<char>)> {
    seq![(select_all(), select_all(), Seq::<char>::empty())] + list.servers.map_values(
        |e: EntryModel| server_item(e),
    )
}

/// The names of the servers of a list, in file order.
pub open spec fn server_names(list: ServerListModel) -> Seq<Seq<char>> {
    list.servers.map_values(|e: EntryModel| e.name)
}

/// The servers that a choice from the menu stands for: every server of the list if
/// "select all" was chosen, else the chosen ones as they are.
pub open spec fn chosen_servers(list: ServerListModel, chosen: Seq<Seq<char>>) -> Seq<Seq<char>> {
    if chosen.contains(select_all()) {
        server_names(list)
    } else {
        chosen
    }
}

/// Builds the server menu of a list.
pub fn available_servers(list: &ServerList) -> (items: Vec<(String, String, String)>)
    ensures
        item_models(items@) == server_menu(list@),
{
    let mut items: Vec<(String, String, String)> = Vec::new();
    items.push(
        (String::from_str("select all"), String::from_str("select all"), String::new()),
    );
    let ghost entries = list@.servers;
    let mut i: usize = 0;
    assert(item_models(items@) =~= seq![(select_all(), select_all(), Seq::<char>::empty())]);
    while i < list.servers.len()
        invariant
            i <= list.servers.len(),
            entries == list@.servers,
            item_models(items@) == seq![(select_all(), select_all(), Seq::<char>::empty())]
                + entries.subrange(0, i as int).map_values(|e: EntryModel| server_item(e)),
        decreases list.servers.len() - i,
    {
        let entry: &ServerEntry = &list.servers[i];
        let ghost before = items@;
        items.push((entry.name.clone(), entry.name.clone(), entry.description.clone()));
        assert(entries.subrange(0, i + 1).map_values(|e: EntryModel| server_item(e))
            =~= entries.subrange(0, i as int).map_values(|e: EntryModel| server_item(e)).push(
            server_item(entries[i as int]),
        ));
        assert(item_models(items@) =~= item_models(before).push(server_item(entries[i as int])));
        i += 1;
    }
    assert(entries.subrange(0, list.servers.len() as int) =~= entries);
    items
}

/// The names of all servers of a list, in file order.
fn all_server_names(list: &ServerList) -> (names: Vec<String>)
    ensures
        texts(names@) == server_names(list@),
{
    let ghost entries = list@.servers;
    let mut names: Vec<String> = Vec::new();
    let mut i: usize = 0;
    while i < list.servers.len()
        invariant
            i <= list.servers.len(),
            entries == list@.servers,
            texts(names@) == entries.subrange(0, i as int).map_values(|e: EntryModel| e.name),
        decreases list.servers.len() - i,
    {
        let ghost before = names@;
        names.push(list.servers[i].name.clone());
        assert(texts(names@) =~= texts(before).push(entries[i as int].name));
        assert(entries.subrange(0, i + 1).map_values(|e: EntryModel| e.name) =~= entries.subrange(
            0,
            i as int,
        ).map_values(|e: EntryModel| e.name).push(entries[i as int].name));
        i += 1;
    }
    assert(entries.subrange(0, list.servers.len() as int) =~= entries);
    names
}

/// The servers to connect to, from the user's choice in the server menu.
pub fn servers_to_connect(list: &ServerList, chosen: &Vec<String>) -> (servers: Vec<String>)
    ensures
        texts(servers@) == chosen_servers(list@, texts(chosen@)),
{
    let select_all_text = String::from_str("select all");
    let mut i: usize = 0;
    let mut found = false;
    while i < chosen.len()
        invariant
            i <= chosen.len(),
            select_all_text@ == select_all(),
            found <==> texts(chosen@).subrange(0, i as int).contains(select_all()),
        decreases chosen.len() - i,
    {
        let ghost prefix = texts(chosen@).subrange(0, i + 1);
        assert(prefix =~= texts(chosen@).subrange(0, i as int).push(chosen@[i as int]@));
        if chosen[i] == select_all_text {
            found = true;
            assert(prefix[i as int] == select_all());
        } else {
            assert forall|k: int| 0 <= k < prefix.len() && prefix[k] == select_all() implies k
                < i by {}
        }
        i += 1;
    }
    assert(texts(chosen@).subrange(0, chosen.len() as int) =~= texts(chosen@));
    if found {
        all_server_names(list)
    } else {
        let mut copy: Vec<String> = Vec::new();
        let mut j: usize = 0;
        while j < chosen.len()
            invariant
                j <= chosen.len(),
                texts(copy@) == texts(chosen@).subrange(0, j as int),
            decreases chosen.len() - j,
        {
            let ghost before = copy@;
            copy.push(chosen[j].clone());
            assert(texts(copy@) =~= texts(before).push(chosen@[j as int]@));
            assert(texts(chosen@).subrange(0, j + 1) =~= texts(chosen@).subrange(0, j as int).push(
                chosen@[j as int]@,
            ));
            j += 1;
        }
        copy
    }
}

/// After a failed connection, whether the session ends at once without asking: the
/// failure was at the last server, and its index equals the number of server lists in use.
pub fn finish_after_failure(index: usize, server_count: usize, list_count: usize) -> (finish:
    bool)
    requires
        index < server_count,
    ensures
        finish == (index == server_count - 1 && index == list_count),
{
    index == server_count - 1 && index == list_count
}

/// How many servers are still queued after the one at `index`.
pub fn remaining_servers(index: usize, server_count: usize) -> (remaining: usize)
    requires
        index < server_count,
    ensures
        remaining == server_count - (index + 1),
{
    server_count - (index + 1)
}

} // verus!

verus! {

/// When "select all" is among the chosen values, wherever it stands, the servers to
/// connect to are all servers of the list, by name, in file order.
pub proof fn lemma_select_all_anywhere_means_every_server(
    list: ServerListModel,
    chosen: Seq<Seq<char>>,
    i: int,
)
    requires
        0 <= i < chosen.len(),
        chosen[i] == "select all"@,
    ensures
        chosen_servers(list, chosen).len() == list.servers.len(),
        forall|k: int|
            0 <= k < list.servers.len() ==> #[trigger] chosen_servers(list, chosen)[k]
                == list.servers[k].name,
{
    assert(chosen.contains(select_all()));
}

/// Without "select all" among the chosen values, the servers to connect to are the
/// chosen values themselves, in the order chosen.
pub proof fn lemma_without_select_all_choice_is_kept(list: ServerListModel, chosen: Seq<Seq<char>>)
    requires
        forall|i: int| 0 <= i < chosen.len() ==> #[trigger] chosen[i] != "select all"@,
    ensures
        chosen_servers(list, chosen) == chosen,
{
    if chosen.contains(select_all()) {
        let i = choose|i: int| 0 <= i < chosen.len() && chosen[i] == select_all();
        assert(chosen[i] != "select all"@);
    }
}

/// The server menu offers "select all" first, with an empty hint, and then each server
/// of the list in file order, its name as value and label and its description as hint.
pub proof fn lemma_server_menu_entries(list: ServerListModel)
    ensures
        server_menu(list).len() == list.servers.len() + 1,
        server_menu(list)[0] == ("select all"@, "select all"@, Seq::<char>::empty()),
        forall|k: int|
            0 <= k < list.servers.len() ==> #[trigger] server_menu(list)[k + 1] == (
                list.servers[k].name,
                list.servers[k].name,
                list.servers[k].description,
            ),
{
    let menu = server_menu(list);
    let rest = list.servers.map_values(|e: EntryModel| server_item(e));
    assert forall|k: int| 0 <= k < list.servers.len() implies #[trigger] menu[k + 1] == (
        list.servers[k].name,
        list.servers[k].name,
        list.servers[k].description,
    ) by {
        assert(menu[k + 1] == rest[k]);
    }
}

} // verus!
