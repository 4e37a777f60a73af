use vstd::prelude::*;

use crate::config::{entry_of, json_server_list, server_list_of, EntryModel, ServerListModel};
use crate::json::{
    items_or_none, json_model, json_models, json_pretty_text, key_less, lemma_member_models, lookup,
    member, member_models, reads_back, write_json_pretty, JsonModel, JsonValue,
};
use crate::validations::{file_name_verdict, server_list_verdict, validate_server_list_file_name};

verus! {

/// A share of a server, as the user describes it.
pub struct ShareEntry {
    pub name: String,
    pub description: String,
}

/// A server of a new server list, with its shares.
pub struct NewServer {
    pub name: String,
    pub description: String,
    pub shares: Vec<ShareEntry>,
}

/// A new server list, as it is written to its file.
pub struct NewServerList {
    pub username: String,
    pub mount_target: String,
    pub servers: Vec<NewServer>,
}

/// The model of a share.
pub struct ShareModel {
    pub name: Seq<char>,
    pub description: Seq<char>,
}

/// The model of a server of a new list.
pub struct NewServerModel {
    pub name: Seq<char>,
    pub description: Seq<char>,
    pub shares: Seq<ShareModel>,
}

/// The model of a new server list.
pub struct NewListModel {
    pub username: Seq<char>,
    pub mount_target: Seq<char>,
    pub servers: Seq<NewServerModel>,
}

impl View for ShareEntry {
    type V = ShareModel;

    open spec fn view(&self) -> ShareModel {
        ShareModel { name: self.name@, description: self.description@ }
    }
}

impl View for NewServer {
    type V = NewServerModel;

    open spec fn view(&self) -> NewServerModel {
        NewServerModel {
            name: self.name@,
            description: self.description@,
            shares: self.shares@.map_values(|s: ShareEntry| s@),
        }
    }
}

impl View for NewServerList {
    type V = NewListModel;

    open spec fn view(&self) -> NewListModel {
        NewListModel {
            username: self.username@,
            mount_target: self.mount_target@,
            servers: self.servers@.map_values(|s: NewServer| s@),
        }
    }
}

/// The question that the wizard asks next.
#[derive(Clone, Copy, Debug, PartialEq, Eq, Structural)]
pub enum WizardStep {
    ListName,
    Username,
    MountTarget,
    ServerName,
    ServerDescription,
    AddShare,
    ShareName,
    ShareDescription,
    AnotherShare,
    AnotherServer,
    AnotherList,
    Done,
}

/// The user's reply: a text, or a yes or no.
pub enum WizardInput {
    Text(String),
    Answer(bool),
}

/// What the wizard hands back after a reply.
pub enum WizardOutcome {
    /// Ask the next question.
    Next,
    /// The list name was refused, with this message; the name is asked again.
    NameRejected(String),
    /// Write this list to the file of this name, then ask the next question.
    Save(String, NewServerList),
    /// The user is done.
    Finished,
}

/// The wizard that asks for new server lists, one question at a time.
pub struct ServerListWizard {
    /// Whether the tool runs on Windows, where servers have descriptions and shares
    /// are optional.
    pub windows: bool,
    pub step: WizardStep,
    pub list_name: String,
    pub list: NewServerList,
    pub server: NewServer,
    pub share_name: String,
}

/// The model of a reply.
pub enum InputModel {
    Text(Seq<char>),
    Answer(bool),
}

/// The model of an outcome.
pub enum OutcomeModel {
    Next,
    NameRejected(Seq<char>),
    Save(Seq<char>, NewListModel),
    Finished,
}

/// The model of the wizard.
pub struct WizardModel {
    pub windows: bool,
    pub step: WizardStep,
    pub list_name: Seq<char>,
    pub list: NewListModel,
    pub server: NewServerModel,
    pub share_name: Seq<char>,
}

impl View for WizardInput {
    type V = InputModel;

    open spec fn view(&self) -> InputModel {
        match self {
            WizardInput::Text(t) => InputModel::Text(t@),
            WizardInput::Answer(b) => InputModel::Answer(*b),
        }
    }
}

impl View for WizardOutcome {
    type V = OutcomeModel;

    open spec fn view(&self) -> OutcomeModel {
        match self {
            WizardOutcome::Next => OutcomeModel::Next,
            WizardOutcome::NameRejected(m) => OutcomeModel::NameRejected(m@),
            WizardOutcome::Save(f, l) => OutcomeModel::Save(f@, l@),
            WizardOutcome::Finished => OutcomeModel::Finished,
        }
    }
}

impl View for ServerListWizard {
    type V = WizardModel;

    open spec fn view(&self) -> WizardModel {
        WizardModel {
            windows: self.windows,
            step: self.step,
            list_name: self.list_name@,
            list: self.list@,
            server: self.server@,
            share_name: self.share_name@,
        }
    }
}

/// A server with no name, description or share yet.
pub open spec fn empty_server() -> NewServerModel {
    NewServerModel { name: Seq::empty(), description: Seq::empty(), shares: Seq::empty() }
}

/// A list with no username, mount target or server yet.
pub open spec fn empty_list() -> NewListModel {
    NewListModel { username: Seq::empty(), mount_target: Seq::empty(), servers: Seq::empty() }
}

/// Whether a step asks for a text (otherwise for a yes or no, or nothing when done).
pub open spec fn asks_text(step: WizardStep) -> bool {
    match step {
        WizardStep::ListName | WizardStep::Username | WizardStep::MountTarget
        | WizardStep::ServerName | WizardStep::ServerDescription | WizardStep::ShareName
        | WizardStep::ShareDescription => true,
        _ => false,
    }
}

/// Whether a reply is of the kind that the step asks for.
pub open spec fn fits(step: WizardStep, input: InputModel) -> bool {
    &&& step != WizardStep::Done
    &&& (input is Text <==> asks_text(step))
}

/// The file that a list of this name is written to.
pub open spec fn list_file_name(name: Seq<char>) -> Seq<char> {
    name + ".json"@
}

/// The wizard after the current server is done: the server joins the list, and the
/// next server is asked for or not.
pub open spec fn server_done(w: WizardModel) -> WizardModel {
    WizardModel {
        step: WizardStep::AnotherServer,
        list: NewListModel { servers: w.list.servers.push(w.server), ..w.list },
        server: empty_server(),
        ..w
    }
}

/// The wizard's rule: the state and outcome after a reply.
pub open spec fn wizard_next(w: WizardModel, input: InputModel) -> (WizardModel, OutcomeModel) {
    match (w.step, input) {
        (WizardStep::ListName, InputModel::Text(t)) => match file_name_verdict(t) {
            Err(message) => (w, OutcomeModel::NameRejected(message)),
            Ok(()) => (
                WizardModel { step: WizardStep::Username, list_name: t, ..w },
                OutcomeModel::Next,
            ),
        },
        (WizardStep::Username, InputModel::Text(t)) => (
            WizardModel {
                step: WizardStep::MountTarget,
                list: NewListModel { username: t, ..empty_list() },
                ..w
            },
            OutcomeModel::Next,
        ),
        (WizardStep::MountTarget, InputModel::Text(t)) => (
            WizardModel {
                step: WizardStep::ServerName,
                list: NewListModel { mount_target: t, ..w.list },
                ..w
            },
            OutcomeModel::Next,
        ),
        (WizardStep::ServerName, InputModel::Text(t)) => (
            WizardModel {
                step: if w.windows {
                    WizardStep::ServerDescription
                } else {
                    WizardStep::ShareName
                },
                server: NewServerModel { name: t, ..empty_server() },
                ..w
            },
            OutcomeModel::Next,
        ),
        (WizardStep::ServerDescription, InputModel::Text(t)) => (
            WizardModel {
                step: WizardStep::AddShare,
                server: NewServerModel { description: t, ..w.server },
                ..w
            },
            OutcomeModel::Next,
        ),
        (WizardStep::ShareName, InputModel::Text(t)) => (
            WizardModel { step: WizardStep::ShareDescription, share_name: t, ..w },
            OutcomeModel::Next,
        ),
        (WizardStep::ShareDescription, InputModel::Text(t)) => (
            WizardModel {
                step: WizardStep::AnotherShare,
                server: NewServerModel {
                    shares: w.server.shares.push(ShareModel { name: w.share_name, description: t }),
                    ..w.server
                },
                ..w
            },
            OutcomeModel::Next,
        ),
        (WizardStep::AddShare, InputModel::Answer(yes)) | (
            WizardStep::AnotherShare,
            InputModel::Answer(yes),
        ) => if yes {
            (WizardModel { step: WizardStep::ShareName, ..w }, OutcomeModel::Next)
        } else {
            (server_done(w), OutcomeModel::Next)
        },
        (WizardStep::AnotherServer, InputModel::Answer(yes)) => if yes {
            (WizardModel { step: WizardStep::ServerName, ..w }, OutcomeModel::Next)
        } else {
            (
                WizardModel { step: WizardStep::AnotherList, list: empty_list(), ..w },
                OutcomeModel::Save(list_file_name(w.list_name), w.list),
            )
        },
        (WizardStep::AnotherList, InputModel::Answer(yes)) => if yes {
            (WizardModel { step: WizardStep::ListName, ..w }, OutcomeModel::Next)
        } else {
            (WizardModel { step: WizardStep::Done, ..w }, OutcomeModel::Finished)
        },
        _ => (w, OutcomeModel::Next),
    }
}

/// Off Windows a server has no description and at least one share.
pub open spec fn server_shape_ok(windows: bool, s: NewServerModel) -> bool {
    windows || (s.description.len() == 0 && s.shares.len() >= 1)
}

/// The wizard's invariant: past the first question the list name is one that the name
/// check accepts; when it asks for another server the list holds at least one; off
/// Windows every finished server has the shape above, the current server has no
/// description, and the Windows-only questions are never asked.
pub open spec fn wizard_wf(w: WizardModel) -> bool {
    &&& w.step != WizardStep::ListName ==> file_name_verdict(w.list_name) is Ok
    &&& forall|k: int|
        0 <= k < w.list.servers.len() ==> server_shape_ok(w.windows, #[trigger] w.list.servers[k])
    &&& w.step == WizardStep::AnotherServer ==> w.list.servers.len() >= 1
    &&& !w.windows ==> {
        &&& w.server.description.len() == 0
        &&& w.step != WizardStep::ServerDescription
        &&& w.step != WizardStep::AddShare
        &&& w.step == WizardStep::AnotherShare ==> w.server.shares.len() >= 1
    }
}

/// The wizard's invariant holds after every reply.
pub proof fn lemma_wizard_keeps_invariant(w: WizardModel, input: InputModel)
    requires
        wizard_wf(w),
    ensures
        wizard_wf(wizard_next(w, input).0),
{
    let post = wizard_next(w, input).0;
    if w.step == WizardStep::AddShare || w.step == WizardStep::AnotherShare {
        if let InputModel::Answer(yes) = input {
            if !yes {
                assert forall|k: int| 0 <= k < post.list.servers.len() implies server_shape_ok(
                    post.windows,
                    #[trigger] post.list.servers[k],
                ) by {
                    if k < w.list.servers.len() {
                        assert(post.list.servers[k] == w.list.servers[k]);
                    }
                }
            }
        }
    }
}

/// A list is only ever saved under its checked name with `.json` after it, it holds at
/// least one server, and off Windows each of its servers has no description and at least
/// one share.
pub proof fn lemma_saved_list_is_sound(w: WizardModel, input: InputModel)
    requires
        wizard_wf(w),
    ensures
        wizard_next(w, input).1 matches OutcomeModel::Save(file, list) ==> {
            &&& file == list_file_name(w.list_name)
            &&& file_name_verdict(w.list_name) is Ok
            &&& list == w.list
            &&& list.servers.len() >= 1
            &&& forall|k: int|
                0 <= k < list.servers.len() ==> server_shape_ok(w.windows, #[trigger] list.servers[k])
        },
{
}

impl NewServer {
    /// A server with no name, description or share yet.
    pub fn empty() -> (s: NewServer)
        ensures
            s@ == empty_server(),
    {
        let s = NewServer { name: String::new(), description: String::new(), shares: Vec::new() };
        assert(s@.shares =~= Seq::<ShareModel>::empty());
        s
    }
}

impl NewServerList {
    /// A list with no username, mount target or server yet.
    pub fn empty() -> (l: NewServerList)
        ensures
            l@ == empty_list(),
    {
        let l = NewServerList {
            username: String::new(),
            mount_target: String::new(),
            servers: Vec::new(),
        };
        assert(l@.servers =~= Seq::<NewServerModel>::empty());
        l
    }
}

impl ServerListWizard {
    /// A wizard that first asks for a list name.
    pub fn new(windows: bool) -> (w: ServerListWizard)
        ensures
            w@.windows == windows,
            w@.step == WizardStep::ListName,
            w@.list_name == Seq::<char>::empty(),
            w@.list == empty_list(),
            w@.server == empty_server(),
            w@.share_name == Seq::<char>::empty(),
            wizard_wf(w@),
    {
        ServerListWizard {
            windows,
            step: WizardStep::ListName,
            list_name: String::new(),
            list: NewServerList::empty(),
            server: NewServer::empty(),
            share_name: String::new(),
        }
    }

    /// Whether the current question asks for a text.
    pub fn asks_text(&self) -> (r: bool)
        ensures
            r == asks_text(self.step),
    {
        match self.step {
            WizardStep::ListName | WizardStep::Username | WizardStep::MountTarget
            | WizardStep::ServerName | WizardStep::ServerDescription | WizardStep::ShareName
            | WizardStep::ShareDescription => true,
            _ => false,
        }
    }

    /// Whether the user is done.
    pub fn is_done(&self) -> (r: bool)
        ensures
            r == (self.step == WizardStep::Done),
    {
        match self.step {
            WizardStep::Done => true,
            _ => false,
        }
    }

    /// The current server joins the list.
    fn finish_server(&mut self)
        ensures
            final(self)@ == (WizardModel { step: old(self)@.step, ..server_done(old(self)@) }),
    {
        let mut done = NewServer::empty();
        core::mem::swap(&mut done, &mut self.server);
        let ghost before = self.list.servers@;
        self.list.servers.push(done);
        assert(self.list.servers@.map_values(|s: NewServer| s@) =~= before.map_values(
            |s: NewServer| s@,
        ).push(old(self)@.server));
    }

    /// Takes the user's reply to the current question.
    pub fn advance(&mut self, input: WizardInput) -> (outcome: WizardOutcome)
        requires
            fits(old(self).step, input@),
            wizard_wf(old(self)@),
        ensures
            (final(self)@, outcome@) == wizard_next(old(self)@, input@),
            wizard_wf(final(self)@),
    {
        proof {
            lemma_wizard_keeps_invariant(self@, input@);
        }
        match input {
            WizardInput::Text(t) => {
                match self.step {
                    WizardStep::ListName => {
                        let verdict = validate_server_list_file_name(t.as_str());
                        match verdict {
                            Err(message) => {
                                return WizardOutcome::NameRejected(message);
                            },
                            Ok(()) => {
                                self.list_name = t;
                                self.step = WizardStep::Username;
                            },
                        }
                    },
                    WizardStep::Username => {
                        let mut fresh = NewServerList::empty();
                        fresh.username = t;
                        self.list = fresh;
                        self.step = WizardStep::MountTarget;
                    },
                    WizardStep::MountTarget => {
                        self.list.mount_target = t;
                        self.step = WizardStep::ServerName;
                    },
                    WizardStep::ServerName => {
                        let mut fresh = NewServer::empty();
                        fresh.name = t;
                        self.server = fresh;
                        self.step =
                            if self.windows {
                                WizardStep::ServerDescription
                            } else {
                                WizardStep::ShareName
                            };
                    },
                    WizardStep::ServerDescription => {
                        self.server.description = t;
                        self.step = WizardStep::AddShare;
                    },
                    WizardStep::ShareName => {
                        self.share_name = t;
                        self.step = WizardStep::ShareDescription;
                    },
                    _ => {
                        let share = ShareEntry { name: self.share_name.clone(), description: t };
                        let ghost before = self.server.shares@;
                        self.server.shares.push(share);
                        assert(self.server.shares@.map_values(|s: ShareEntry| s@) =~= before.map_values(
                            |s: ShareEntry| s@,
                        ).push(ShareModel { name: old(self)@.share_name, description: input@->Text_0 }));
                        self.step = WizardStep::AnotherShare;
                    },
                }
                WizardOutcome::Next
            },
            WizardInput::Answer(yes) => {
                match self.step {
                    WizardStep::AnotherServer => {
                        if yes {
                            self.step = WizardStep::ServerName;
                            WizardOutcome::Next
                        } else {
                            let mut saved = NewServerList::empty();
                            core::mem::swap(&mut saved, &mut self.list);
                            let file_name = self.list_name.clone().concat(".json");
                            self.step = WizardStep::AnotherList;
                            WizardOutcome::Save(file_name, saved)
                        }
                    },
                    WizardStep::AnotherList => {
                        if yes {
                            self.step = WizardStep::ListName;
                            WizardOutcome::Next
                        } else {
                            self.step = WizardStep::Done;
                            WizardOutcome::Finished
                        }
                    },
                    _ => {
                        if yes {
                            self.step = WizardStep::ShareName;
                        } else {
                            self.finish_server();
                            self.step = WizardStep::AnotherServer;
                        }
                        WizardOutcome::Next
                    },
                }
            },
        }
    }
}

} // verus!

verus! {

/// A list that the wizard saves is found again by the scan for server list files exactly
/// when its name is not empty (`.json` alone has no extension).
pub proof fn lemma_saved_file_is_listed(name: Seq<char>)
    ensures
        crate::validations::has_json_extension_spec(list_file_name(name)) <==> name.len() > 0,
{
    reveal_strlit(".json");
    let f = list_file_name(name);
    assert(f.subrange(f.len() - 5, f.len() as int) =~= ".json"@);
}

} // verus!

verus! {

/// The JSON object written for a share.
pub open spec fn share_document(s: ShareModel) -> JsonModel {
    JsonModel::Object(
        seq![("description"@, JsonModel::Text(s.description)), ("name"@, JsonModel::Text(s.name))],
    )
}

/// The JSON object written for a server.
pub open spec fn server_document(s: NewServerModel) -> JsonModel {
    JsonModel::Object(
        seq![
            ("description"@, JsonModel::Text(s.description)),
            ("name"@, JsonModel::Text(s.name)),
            ("shares"@, JsonModel::Array(s.shares.map_values(|x: ShareModel| share_document(x)))),
        ],
    )
}

/// The JSON document written for a new server list.
pub open spec fn list_document(l: NewListModel) -> JsonModel {
    JsonModel::Object(
        seq![
            ("mount_target"@, JsonModel::Text(l.mount_target)),
            (
                "servers"@,
                JsonModel::Array(l.servers.map_values(|s: NewServerModel| server_document(s))),
            ),
            ("username"@, JsonModel::Text(l.username)),
        ],
    )
}

/// What the server list check reads of a written list: its username, and the name and
/// description of each server.
pub open spec fn saved_list_reading(l: NewListModel) -> ServerListModel {
    ServerListModel {
        username: l.username,
        servers: l.servers.map_values(
            |s: NewServerModel| EntryModel { name: s.name, description: s.description },
        ),
    }
}

/// The model of a vector of three members.
proof fn lemma_three_members(members: Seq<(String, JsonValue)>)
    requires
        members.len() == 3,
    ensures
        member_models(members) == seq![
            (members[0].0@, json_model(members[0].1)),
            (members[1].0@, json_model(members[1].1)),
            (members[2].0@, json_model(members[2].1)),
        ],
{
    lemma_member_models(members);
    assert(member_models(members) =~= seq![
        (members[0].0@, json_model(members[0].1)),
        (members[1].0@, json_model(members[1].1)),
        (members[2].0@, json_model(members[2].1)),
    ]);
}

/// Builds the JSON object of a share.
fn share_json(s: &ShareEntry) -> (v: JsonValue)
    ensures
        json_model(v) == share_document(s@),
{
    let members = vec![
        (String::from_str("description"), JsonValue::Text(s.description.clone())),
        (String::from_str("name"), JsonValue::Text(s.name.clone())),
    ];
    proof {
        lemma_member_models(members@);
        assert(member_models(members@) =~= seq![
            ("description"@, JsonModel::Text(s.description@)),
            ("name"@, JsonModel::Text(s.name@)),
        ]);
    }
    JsonValue::Object(members)
}

/// Builds the JSON object of a server.
fn server_json(s: &NewServer) -> (v: JsonValue)
    ensures
        json_model(v) == server_document(s@),
{
    let ghost shares = s@.shares;
    let mut items: Vec<JsonValue> = Vec::new();
    let mut i: usize = 0;
    while i < s.shares.len()
        invariant
            i <= s.shares.len(),
            shares == s@.shares,
            json_models(items@) == shares.subrange(0, i as int).map_values(
                |x: ShareModel| share_document(x),
            ),
        decreases s.shares.len() - i,
    {
        let ghost before = items@;
        let item = share_json(&s.shares[i]);
        items.push(item);
        assert(items@.drop_last() =~= before);
        assert(shares.subrange(0, i + 1).map_values(|x: ShareModel| share_document(x))
            =~= shares.subrange(0, i as int).map_values(|x: ShareModel| share_document(x)).push(
            share_document(shares[i as int]),
        ));
        i += 1;
    }
    assert(shares.subrange(0, s.shares.len() as int) =~= shares);
    let members = vec![
        (String::from_str("description"), JsonValue::Text(s.description.clone())),
        (String::from_str("name"), JsonValue::Text(s.name.clone())),
        (String::from_str("shares"), JsonValue::Array(items)),
    ];
    proof {
        lemma_three_members(members@);
    }
    JsonValue::Object(members)
}

/// Builds the JSON document of a new server list.
pub fn list_json(list: &NewServerList) -> (v: JsonValue)
    ensures
        json_model(v) == list_document(list@),
{
    let ghost servers = list@.servers;
    let mut items: Vec<JsonValue> = Vec::new();
    let mut i: usize = 0;
    while i < list.servers.len()
        invariant
            i <= list.servers.len(),
            servers == list@.servers,
            json_models(items@) == servers.subrange(0, i as int).map_values(
                |s: NewServerModel| server_document(s),
            ),
        decreases list.servers.len() - i,
    {
        let ghost before = items@;
        let item = server_json(&list.servers[i]);
        items.push(item);
        assert(items@.drop_last() =~= before);
        assert(servers.subrange(0, i + 1).map_values(|s: NewServerModel| server_document(s))
            =~= servers.subrange(0, i as int).map_values(
            |s: NewServerModel| server_document(s),
        ).push(server_document(servers[i as int])));
        i += 1;
    }
    assert(servers.subrange(0, list.servers.len() as int) =~= servers);
    let members = vec![
        (String::from_str("mount_target"), JsonValue::Text(list.mount_target.clone())),
        (String::from_str("servers"), JsonValue::Array(items)),
        (String::from_str("username"), JsonValue::Text(list.username.clone())),
    ];
    proof {
        lemma_three_members(members@);
    }
    JsonValue::Object(members)
}

} // verus!

verus! {

proof fn lemma_key_order()
    ensures
        key_less("description"@, "name"@),
        key_less("name"@, "shares"@),
        key_less("description"@, "shares"@),
        key_less("mount_target"@, "servers"@),
        key_less("servers"@, "username"@),
        key_less("mount_target"@, "username"@),
{
    reveal_strlit("description");
    reveal_strlit("name");
    reveal_strlit("shares");
    reveal_strlit("mount_target");
    reveal_strlit("servers");
    reveal_strlit("username");
}

proof fn lemma_share_reads_back(s: ShareModel, depth: nat)
    requires
        depth >= 1,
    ensures
        reads_back(share_document(s), depth),
{
    lemma_key_order();
    let members = seq![("description"@, JsonModel::Text(s.description)), ("name"@, JsonModel::Text(s.name))];
    assert forall|i: int, j: int| 0 <= i < j < members.len() implies key_less(
        #[trigger] members[i].0,
        #[trigger] members[j].0,
    ) by {
        assert(i == 0 && j == 1);
    }
    assert forall|i: int| 0 <= i < members.len() implies reads_back(
        #[trigger] members[i].1,
        (depth - 1) as nat,
    ) by {
        assert(i == 0 || i == 1);
    }
}

proof fn lemma_server_reads_back(s: NewServerModel, depth: nat)
    requires
        depth >= 3,
    ensures
        reads_back(server_document(s), depth),
{
    lemma_key_order();
    let shares = s.shares.map_values(|x: ShareModel| share_document(x));
    assert forall|i: int| 0 <= i < shares.len() implies reads_back(
        #[trigger] shares[i],
        (depth - 2) as nat,
    ) by {
        lemma_share_reads_back(s.shares[i], (depth - 2) as nat);
    }
    assert(reads_back(JsonModel::Array(shares), (depth - 1) as nat));
    let members = seq![
        ("description"@, JsonModel::Text(s.description)),
        ("name"@, JsonModel::Text(s.name)),
        ("shares"@, JsonModel::Array(shares)),
    ];
    assert forall|i: int, j: int| 0 <= i < j < members.len() implies key_less(
        #[trigger] members[i].0,
        #[trigger] members[j].0,
    ) by {
        assert((i == 0 && j == 1) || (i == 0 && j == 2) || (i == 1 && j == 2));
    }
    assert forall|i: int| 0 <= i < members.len() implies reads_back(
        #[trigger] members[i].1,
        (depth - 1) as nat,
    ) by {
        assert(i == 0 || i == 1 || i == 2);
    }
    assert(server_document(s) == JsonModel::Object(members));
}

/// The document written for a list comes back unchanged when it is read again.
pub proof fn lemma_list_reads_back(l: NewListModel)
    ensures
        reads_back(list_document(l), 100),
{
    lemma_key_order();
    let servers = l.servers.map_values(|s: NewServerModel| server_document(s));
    assert forall|i: int| 0 <= i < servers.len() implies reads_back(#[trigger] servers[i], 98) by {
        lemma_server_reads_back(l.servers[i], 98);
    }
    assert(reads_back(JsonModel::Array(servers), 99));
    let members = seq![
        ("mount_target"@, JsonModel::Text(l.mount_target)),
        ("servers"@, JsonModel::Array(servers)),
        ("username"@, JsonModel::Text(l.username)),
    ];
    assert forall|i: int, j: int| 0 <= i < j < members.len() implies key_less(
        #[trigger] members[i].0,
        #[trigger] members[j].0,
    ) by {
        assert((i == 0 && j == 1) || (i == 0 && j == 2) || (i == 1 && j == 2));
    }
    assert forall|i: int| 0 <= i < members.len() implies reads_back(#[trigger] members[i].1, 99)
        by {
        assert(i == 0 || i == 1 || i == 2);
    }
    assert(list_document(l) == JsonModel::Object(members));
}

/// Reading the document written for a list gives its username, and each server's name
/// and description, in order.
pub proof fn lemma_list_document_reading(l: NewListModel)
    ensures
        server_list_of(list_document(l)) == saved_list_reading(l),
{
    reveal_strlit("description");
    reveal_strlit("name");
    reveal_strlit("shares");
    reveal_strlit("mount_target");
    reveal_strlit("servers");
    reveal_strlit("username");
    let servers = l.servers.map_values(|s: NewServerModel| server_document(s));
    let members = seq![
        ("mount_target"@, JsonModel::Text(l.mount_target)),
        ("servers"@, JsonModel::Array(servers)),
        ("username"@, JsonModel::Text(l.username)),
    ];
    assert(list_document(l) == JsonModel::Object(members));
    assert("mount_target"@.len() == 12 && "servers"@.len() == 7 && "username"@.len() == 8);
    assert("description"@.len() == 11 && "name"@.len() == 4);
    assert(members[0].0 != "servers"@);
    assert(members.drop_first()[0] == members[1]);
    assert(lookup(members.drop_first(), "servers"@) == JsonModel::Array(servers));
    assert(lookup(members, "servers"@) == JsonModel::Array(servers));
    assert(members[0].0 != "username"@);
    assert(members.drop_first()[0].0 != "username"@);
    assert(members.drop_first().drop_first()[0] == members[2]);
    assert(lookup(members.drop_first(), "username"@) == lookup(
        members.drop_first().drop_first(),
        "username"@,
    ));
    assert(lookup(members, "username"@) == JsonModel::Text(l.username));
    assert forall|i: int| 0 <= i < l.servers.len() implies #[trigger] entry_of(servers[i])
        == (EntryModel { name: l.servers[i].name, description: l.servers[i].description }) by {
        let s = l.servers[i];
        let sm = seq![
            ("description"@, JsonModel::Text(s.description)),
            ("name"@, JsonModel::Text(s.name)),
            ("shares"@, JsonModel::Array(s.shares.map_values(|x: ShareModel| share_document(x)))),
        ];
        assert(servers[i] == JsonModel::Object(sm));
        assert(lookup(sm, "description"@) == JsonModel::Text(s.description));
        assert(sm[0].0 != "name"@);
        assert(sm.drop_first()[0] == sm[1]);
        assert(lookup(sm.drop_first(), "name"@) == JsonModel::Text(s.name));
        assert(lookup(sm, "name"@) == JsonModel::Text(s.name));
    }
    assert(server_list_of(list_document(l)).servers =~= saved_list_reading(l).servers);
}

/// Writes the document of a new server list as pretty-printed JSON text.
pub fn server_list_text(list: &NewServerList) -> (text: String)
    ensures
        text@ == json_pretty_text(list_document(list@)),
        json_server_list(text@) == Ok::<ServerListModel, Seq<char>>(saved_list_reading(list@)),
{
    let doc = list_json(list);
    proof {
        lemma_list_reads_back(list@);
        lemma_list_document_reading(list@);
    }
    match write_json_pretty(&doc) {
        Ok(text) => text,
        Err(_) => {
            proof {
                assert(false);
            }
            String::new()
        },
    }
}

/// A file that the wizard saves passes the server list check when it is read again: its
/// text is the document of the saved list, which holds at least one server.
pub proof fn lemma_saved_file_passes_check(
    w: WizardModel,
    input: InputModel,
    text: Seq<char>,
    path: Seq<char>,
)
    requires
        wizard_wf(w),
        wizard_next(w, input).1 matches OutcomeModel::Save(_, list) && json_server_list(text)
            == Ok::<ServerListModel, Seq<char>>(saved_list_reading(list)),
    ensures
        server_list_verdict(path, json_server_list(text)) == Ok::<(), Seq<char>>(()),
{
    lemma_saved_list_is_sound(w, input);
}

} // verus!

verus! {

/// A list name that holds none of `\ / : * ? " < > |` moves on to the username and is
/// kept; a refused name leaves the wizard as it was and hands back the refusal.
pub proof fn lemma_list_name_reply(w: WizardModel, t: Seq<char>)
    requires
        w.step == WizardStep::ListName,
    ensures
        file_name_verdict(t) is Ok ==> {
            let (next, out) = wizard_next(w, InputModel::Text(t));
            &&& next.step == WizardStep::Username
            &&& next.list_name == t
            &&& out == OutcomeModel::Next
        },
        file_name_verdict(t) matches Err(message) ==> wizard_next(w, InputModel::Text(t)) == (
            w,
            OutcomeModel::NameRejected(message),
        ),
{
}

/// The username starts a fresh list; the mount target is kept beside it.
pub proof fn lemma_username_and_mount_target(w: WizardModel, t: Seq<char>)
    ensures
        w.step == WizardStep::Username ==> {
            let next = wizard_next(w, InputModel::Text(t)).0;
            &&& next.step == WizardStep::MountTarget
            &&& next.list.username == t
            &&& next.list.servers.len() == 0
        },
        w.step == WizardStep::MountTarget ==> {
            let next = wizard_next(w, InputModel::Text(t)).0;
            &&& next.step == WizardStep::ServerName
            &&& next.list.mount_target == t
            &&& next.list.username == w.list.username
            &&& next.list.servers == w.list.servers
        },
{
}

/// A server name starts a new server with no description and no share; on Windows its
/// description is asked next, elsewhere the name of its first share.
pub proof fn lemma_server_name_reply(w: WizardModel, t: Seq<char>)
    requires
        w.step == WizardStep::ServerName,
    ensures
        ({
            let (next, out) = wizard_next(w, InputModel::Text(t));
            &&& next.server.name == t
            &&& next.server.description.len() == 0
            &&& next.server.shares.len() == 0
            &&& next.list == w.list
            &&& next.step == (if w.windows {
                WizardStep::ServerDescription
            } else {
                WizardStep::ShareName
            })
            &&& out == OutcomeModel::Next
        }),
{
}

/// Saying yes to a share question, on every platform, asks for the next share's name,
/// with the current server and the list unchanged.
pub proof fn lemma_yes_to_share_question(w: WizardModel)
    requires
        w.step == WizardStep::AddShare || w.step == WizardStep::AnotherShare,
    ensures
        ({
            let (next, out) = wizard_next(w, InputModel::Answer(true));
            &&& next.step == WizardStep::ShareName
            &&& next.server == w.server
            &&& next.list == w.list
            &&& next.list_name == w.list_name
            &&& next.windows == w.windows
            &&& out == OutcomeModel::Next
        }),
{
}

/// Saying no to a share question closes the current server: it joins the end of the
/// list, a fresh server follows, and the wizard asks whether another server follows.
pub proof fn lemma_no_to_share_question(w: WizardModel)
    requires
        w.step == WizardStep::AddShare || w.step == WizardStep::AnotherShare,
    ensures
        ({
            let (next, out) = wizard_next(w, InputModel::Answer(false));
            &&& next.step == WizardStep::AnotherServer
            &&& next.list.servers == w.list.servers.push(w.server)
            &&& next.list.username == w.list.username
            &&& next.list.mount_target == w.list.mount_target
            &&& next.server.shares.len() == 0
            &&& out == OutcomeModel::Next
        }),
{
}

/// A share's description adds the share, under the name given before it, to the end of
/// the current server's shares.
pub proof fn lemma_share_description_reply(w: WizardModel, t: Seq<char>)
    requires
        w.step == WizardStep::ShareDescription,
    ensures
        ({
            let (next, out) = wizard_next(w, InputModel::Text(t));
            &&& next.step == WizardStep::AnotherShare
            &&& next.server.shares == w.server.shares.push(
                ShareModel { name: w.share_name, description: t },
            )
            &&& next.server.name == w.server.name
            &&& next.server.description == w.server.description
            &&& next.list == w.list
            &&& out == OutcomeModel::Next
        }),
{
}

/// After a server, yes asks for the next server's name with the list unchanged; no
/// saves the list as it stands under the list name with `.json` after it.
pub proof fn lemma_another_server_reply(w: WizardModel)
    requires
        w.step == WizardStep::AnotherServer,
    ensures
        ({
            let (next, out) = wizard_next(w, InputModel::Answer(true));
            &&& next.step == WizardStep::ServerName
            &&& next.list == w.list
            &&& out == OutcomeModel::Next
        }),
        ({
            let (next, out) = wizard_next(w, InputModel::Answer(false));
            &&& next.step == WizardStep::AnotherList
            &&& out == OutcomeModel::Save(w.list_name + ".json"@, w.list)
        }),
{
}

/// After a saved list, yes starts another list at its name, no ends the wizard.
pub proof fn lemma_another_list_reply(w: WizardModel)
    requires
        w.step == WizardStep::AnotherList,
    ensures
        wizard_next(w, InputModel::Answer(true)).0.step == WizardStep::ListName,
        wizard_next(w, InputModel::Answer(false)).0.step == WizardStep::Done,
        wizard_next(w, InputModel::Answer(false)).1 == OutcomeModel::Finished,
{
}

} // verus!
