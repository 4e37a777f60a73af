use vstd::prelude::*;

use crate::config::{json_server_list, parse_server_list, read_model, ServerList, ServerListModel};
use crate::text::{lemma_occurs_single, str_contains};

verus! {

/// The characters that a server list file name may not hold, in the order in which
/// they are looked for.
pub open spec fn forbidden_name_chars() -> Seq<char> {
    seq!['\\', '/', ':', '*', '?', '"', '<', '>', '|']
}

/// The first character of `list` that occurs in `name`.
pub open spec fn first_listed_in(list: Seq<char>, name: Seq<char>) -> Option<char>
    decreases list.len(),
{
    if list.len() == 0 {
        None
    } else if name.contains(list[0]) {
        Some(list[0])
    } else {
        first_listed_in(list.drop_first(), name)
    }
}

/// The forbidden character that a file name is refused for: the first in list order
/// that it holds.
pub open spec fn first_forbidden_char(name: Seq<char>) -> Option<char> {
    first_listed_in(forbidden_name_chars(), name)
}

/// The message for a file name that holds a forbidden character.
pub open spec fn name_error_message(c: char) -> Seq<char> {
    "Invalid character in server list file name: "@ + seq![c]
}

/// The model of a check's outcome: success, or the message of the failure.
pub open spec fn verdict_model(r: Result<(), String>) -> Result<(), Seq<char>> {
    match r {
        Ok(()) => Ok(()),
        Err(message) => Err(message@),
    }
}

/// What a server list file name is told: refused for its first forbidden character,
/// else accepted.
pub open spec fn file_name_verdict(name: Seq<char>) -> Result<(), Seq<char>> {
    match first_forbidden_char(name) {
        Some(c) => Err(name_error_message(c)),
        None => Ok(()),
    }
}

/// What the file at `path` is told, given how its text was read: the parser's message,
/// a complaint that it names no server, or acceptance.
pub open spec fn server_list_verdict(
    path: Seq<char>,
    read: Result<ServerListModel, Seq<char>>,
) -> Result<(), Seq<char>> {
    match read {
        Err(error) => Err("Validation of "@ + path + " failed. Error: "@ + error),
        Ok(list) => if list.servers.len() == 0 {
            Err("Validation of "@ + path + " failed. No servers found."@)
        } else {
            Ok(())
        },
    }
}

/// The text of the `i`-th forbidden character.
fn forbidden_char_text(i: usize) -> (text: &'static str)
    requires
        i < 9,
    ensures
        text@ == seq![forbidden_name_chars()[i as int]],
{
    proof {
        reveal_strlit("\\");
        reveal_strlit("/");
        reveal_strlit(":");
        reveal_strlit("*");
        reveal_strlit("?");
        reveal_strlit("\"");
        reveal_strlit("<");
        reveal_strlit(">");
        reveal_strlit("|");
    }
    match i {
        0 => "\\",
        1 => "/",
        2 => ":",
        3 => "*",
        4 => "?",
        5 => "\"",
        6 => "<",
        7 => ">",
        _ => "|",
    }
}

/// Checks that a server list file name holds none of the characters
/// `\ / : * ? " < > |`; refuses it for the first of them, in that order, that it holds.
pub fn validate_server_list_file_name(server_list_file_name: &str) -> (r: Result<(), String>)
    ensures
        verdict_model(r) == file_name_verdict(server_list_file_name@),
{
    let ghost name = server_list_file_name@;
    let mut i: usize = 0;
    assert(forbidden_name_chars().skip(0) =~= forbidden_name_chars());
    while i < 9
        invariant
            i <= 9,
            name == server_list_file_name@,
            first_forbidden_char(name) == first_listed_in(
                forbidden_name_chars().skip(i as int),
                name,
            ),
        decreases 9 - i,
    {
        let text = forbidden_char_text(i);
        let ghost rest = forbidden_name_chars().skip(i as int);
        assert(rest[0] == forbidden_name_chars()[i as int]);
        assert(rest.drop_first() =~= forbidden_name_chars().skip(i + 1));
        proof {
            lemma_occurs_single(forbidden_name_chars()[i as int], name);
        }
        if str_contains(server_list_file_name, text) {
            let message = String::from_str("Invalid character in server list file name: ").concat(
                text,
            );
            return Err(message);
        }
        i += 1;
    }
    assert(forbidden_name_chars().skip(9) =~= Seq::<char>::empty());
    Ok(())
}

/// Tells a server list file, named by `path`, from how its text was read: refused with
/// the parser's message, refused for naming no server, or accepted.
pub fn check_server_list(server_list_file_path: &str, read: Result<ServerList, String>) -> (r:
    Result<(), String>)
    ensures
        verdict_model(r) == server_list_verdict(server_list_file_path@, read_model(read)),
{
    match read {
        Err(error) => {
            let message = String::from_str("Validation of ").concat(server_list_file_path).concat(
                " failed. Error: ",
            ).concat(error.as_str());
            Err(message)
        },
        Ok(list) => {
            if list.servers.len() == 0 {
                let message = String::from_str("Validation of ").concat(
                    server_list_file_path,
                ).concat(" failed. No servers found.");
                Err(message)
            } else {
                Ok(())
            }
        },
    }
}

/// Checks the text of the server list file at `path`: it must be JSON whose `servers`
/// member is a non-empty array.
pub fn validate_server_list_file(server_list_file_path: &str, content: &str) -> (r: Result<
    (),
    String,
>)
    ensures
        verdict_model(r) == server_list_verdict(server_list_file_path@, json_server_list(content@)),
{
    let read = parse_server_list(content);
    check_server_list(server_list_file_path, read)
}

/// The model of a selection item: the value, the label and the hint shown with it.
pub open spec fn item_models(items: Seq<(String, String, String)>) -> Seq<
    (Seq<char>, Seq<char>, Seq<char>),
> {
    items.map_values(|t: (String, String, String)| t@)
}

/// The selection items for the files that passed their check: each accepted path, in
/// order, as its own value and label, with an empty hint.
pub open spec fn accepted_items(paths: Seq<Seq<char>>, accepted: Seq<bool>) -> Seq<
    (Seq<char>, Seq<char>, Seq<char>),
>
    decreases paths.len(),
{
    if paths.len() == 0 {
        Seq::empty()
    } else {
        let front = accepted_items(paths.drop_last(), accepted);
        if accepted[paths.len() - 1] {
            front.push((paths.last(), paths.last(), Seq::<char>::empty()))
        } else {
            front
        }
    }
}

/// Turns the files that passed their check into selection items; `accepted[i]` tells
/// whether `paths[i]` passed.
pub fn selection_items(paths: &Vec<String>, accepted: &Vec<bool>) -> (items: Vec<
    (String, String, String),
>)
    requires
        paths.len() == accepted.len(),
    ensures
        item_models(items@) == accepted_items(
            paths@.map_values(|p: String| p@),
            accepted@,
        ),
{
    let ghost all = paths@.map_values(|p: String| p@);
    let mut items: Vec<(String, String, String)> = Vec::new();
    let mut i: usize = 0;
    assert(all.subrange(0, 0) =~= Seq::<Seq<char>>::empty());
    while i < paths.len()
        invariant
            paths.len() == accepted.len(),
            i <= paths.len(),
            all == paths@.map_values(|p: String| p@),
            item_models(items@) == accepted_items(all.subrange(0, i as int), accepted@),
        decreases paths.len() - i,
    {
        let ghost before = items@;
        assert(all.subrange(0, i + 1).drop_last() =~= all.subrange(0, i as int));
        assert(all.subrange(0, i + 1).last() == paths@[i as int]@);
        if accepted[i] {
            let path = paths[i].clone();
            let label = paths[i].clone();
            items.push((path, label, String::new()));
            assert(item_models(items@) =~= item_models(before).push(
                (paths@[i as int]@, paths@[i as int]@, Seq::<char>::empty()),
            ));
        }
        i += 1;
    }
    assert(all.subrange(0, paths.len() as int) =~= all);
    items
}

} // verus!

verus! {

/// Whether a file name has the extension `json` as `Path::extension` reads it: the part
/// after the last dot, where a name that starts with its only dot has no extension.
/// For `json` this means: longer than `.json`, and ending in `.json`.
pub open spec fn has_json_extension_spec(file_name: Seq<char>) -> bool {
    file_name.len() > 5 && file_name.subrange(file_name.len() - 5, file_name.len() as int)
        == ".json"@
}

/// Whether a directory entry of this name is taken for a server list file.
pub fn has_json_extension(file_name: &str) -> (r: bool)
    ensures
        r == has_json_extension_spec(file_name@),
{
    proof {
        reveal_strlit(".json");
    }
    let n = file_name.unicode_len();
    if n <= 5 {
        return false;
    }
    let r = file_name.get_char(n - 5) == '.' && file_name.get_char(n - 4) == 'j'
        && file_name.get_char(n - 3) == 's' && file_name.get_char(n - 2) == 'o'
        && file_name.get_char(n - 1) == 'n';
    let ghost tail = file_name@.subrange(n - 5, n as int);
    assert(r ==> tail =~= ".json"@);
    assert(tail == ".json"@ ==> (tail[0] == '.' && tail[1] == 'j' && tail[2] == 's' && tail[3]
        == 'o' && tail[4] == 'n'));
    r
}

} // verus!

verus! {

/// What the list search finds is in the list and in the name; it finds nothing only when
/// no element of the list is in the name.
proof fn lemma_first_listed_in(list: Seq<char>, name: Seq<char>)
    ensures
        first_listed_in(list, name) matches Some(c) ==> list.contains(c) && name.contains(c),
        first_listed_in(list, name) is None <==> forall|i: int|
            0 <= i < list.len() ==> !name.contains(#[trigger] list[i]),
    decreases list.len(),
{
    if list.len() > 0 {
        lemma_first_listed_in(list.drop_first(), name);
        if let Some(c) = first_listed_in(list, name) {
            if !name.contains(list[0]) {
                let k = choose|k: int| 0 <= k < list.drop_first().len() && list.drop_first()[k] == c;
                assert(list[k + 1] == c);
            } else {
                assert(list[0] == c);
            }
        }
        if !name.contains(list[0]) && first_listed_in(list.drop_first(), name) is None {
            assert forall|i: int| 0 <= i < list.len() implies !name.contains(#[trigger] list[i]) by {
                if i > 0 {
                    assert(list[i] == list.drop_first()[i - 1]);
                }
            }
        }
    }
}

/// A server list file name is refused only for one of the characters `\ / : * ? " < > |`
/// that it holds, and the message names that character; a name that holds none of them,
/// such as `servers.prod`, is accepted; a name that holds a backslash is refused for it.
pub proof fn lemma_file_name_refused_only_for_forbidden_chars(name: Seq<char>)
    ensures
        !name.contains('\\') && !name.contains('/') && !name.contains(':') && !name.contains('*')
            && !name.contains('?') && !name.contains('"') && !name.contains('<') && !name.contains(
            '>',
        ) && !name.contains('|') ==> file_name_verdict(name) == Ok::<(), Seq<char>>(()),
        file_name_verdict(name) matches Err(message) ==> exists|c: char|
            {
                &&& name.contains(c)
                &&& c == '\\' || c == '/' || c == ':' || c == '*' || c == '?' || c == '"' || c
                    == '<' || c == '>' || c == '|'
                &&& message == "Invalid character in server list file name: "@ + seq![c]
            },
        name.contains('\\') ==> file_name_verdict(name) == Err::<(), Seq<char>>(
            "Invalid character in server list file name: "@ + seq!['\\'],
        ),
{
    let list = forbidden_name_chars();
    lemma_first_listed_in(list, name);
    if !name.contains('\\') && !name.contains('/') && !name.contains(':') && !name.contains('*')
        && !name.contains('?') && !name.contains('"') && !name.contains('<') && !name.contains('>')
        && !name.contains('|') {
        assert forall|i: int| 0 <= i < list.len() implies !name.contains(#[trigger] list[i]) by {
            assert(i == 0 || i == 1 || i == 2 || i == 3 || i == 4 || i == 5 || i == 6 || i == 7
                || i == 8);
        }
    }
    if let Some(c) = first_forbidden_char(name) {
        let k = choose|k: int| 0 <= k < list.len() && list[k] == c;
        assert(k == 0 || k == 1 || k == 2 || k == 3 || k == 4 || k == 5 || k == 6 || k == 7 || k
            == 8);
    }
}

/// Some item has this path as its value.
pub open spec fn has_item_for(items: Seq<(Seq<char>, Seq<char>, Seq<char>)>, path: Seq<char>) -> bool {
    exists|j: int| 0 <= j < items.len() && items[j].0 == path
}

/// Each selection item is an accepted path, as value and as label, with an empty hint;
/// every accepted path has an item, and items come in the order of their paths.
pub proof fn lemma_selection_items_are_accepted_paths(paths: Seq<Seq<char>>, accepted: Seq<bool>)
    requires
        paths.len() == accepted.len(),
    ensures
        accepted_items(paths, accepted).len() <= paths.len(),
        forall|j: int|
            0 <= j < accepted_items(paths, accepted).len() ==> {
                let item = #[trigger] accepted_items(paths, accepted)[j];
                &&& item.0 == item.1
                &&& item.2 == Seq::<char>::empty()
                &&& exists|k: int| 0 <= k < paths.len() && accepted[k] && paths[k] == item.0
            },
        forall|k: int|
            0 <= k < paths.len() && accepted[k] ==> has_item_for(
                accepted_items(paths, accepted),
                #[trigger] paths[k],
            ),
    decreases paths.len(),
{
    if paths.len() > 0 {
        let front = paths.drop_last();
        let acc = accepted.drop_last();
        lemma_selection_items_are_accepted_paths(front, acc);
        assert(accepted_items(front, accepted) == accepted_items(front, acc)) by {
            lemma_accepted_items_prefix(front, accepted, acc);
        }
        let items = accepted_items(paths, accepted);
        let before = accepted_items(front, acc);
        let last = paths.len() - 1;
        assert forall|j: int| 0 <= j < items.len() implies {
            let item = #[trigger] items[j];
            &&& item.0 == item.1
            &&& item.2 == Seq::<char>::empty()
            &&& exists|k: int| 0 <= k < paths.len() && accepted[k] && paths[k] == item.0
        } by {
            if j < before.len() {
                assert(items[j] == before[j]);
                let k = choose|k: int| 0 <= k < front.len() && acc[k] && front[k] == before[j].0;
                assert(accepted[k] && paths[k] == front[k]);
            } else {
                assert(accepted[last] && paths[last] == items[j].0);
            }
        }
        assert forall|k: int| 0 <= k < paths.len() && accepted[k] implies has_item_for(
            accepted_items(paths, accepted),
            #[trigger] paths[k],
        ) by {
            if k < last {
                assert(front[k] == paths[k] && acc[k]);
                assert(has_item_for(before, front[k]));
                let j = choose|j: int| 0 <= j < before.len() && before[j].0 == front[k];
                assert(items[j] == before[j]);
                assert(accepted_items(paths, accepted)[j].0 == paths[k]);
            } else {
                let j = items.len() - 1;
                assert(accepted_items(paths, accepted)[j].0 == paths[k]);
            }
        }
    }
}

/// The items of a prefix of the paths depend only on the verdicts of that prefix.
proof fn lemma_accepted_items_prefix(paths: Seq<Seq<char>>, a: Seq<bool>, b: Seq<bool>)
    requires
        paths.len() <= a.len(),
        paths.len() <= b.len(),
        forall|i: int| 0 <= i < paths.len() ==> a[i] == b[i],
    ensures
        accepted_items(paths, a) == accepted_items(paths, b),
    decreases paths.len(),
{
    if paths.len() > 0 {
        lemma_accepted_items_prefix(paths.drop_last(), a, b);
    }
}

} // verus!
