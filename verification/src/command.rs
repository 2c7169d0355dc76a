//! Commands given in chat, and the changes to the logged channels that they ask for.
use crate::text::{join, same, split_words, texts, words};
use std::collections::VecDeque;
use vstd::prelude::*;

verus! {

/// How a chat message that is a command starts.
pub const COMMAND_PREFIX: &'static str = "!rustlog ";

/// What to do with channels.
#[derive(Debug, Clone, Copy, PartialEq, Eq, Structural)]
pub enum ChannelAction {
    /// Log them.
    Join,
    /// Stop logging them.
    Part,
}

/// What other parts of the program ask the bot to do.
#[derive(Debug)]
pub enum BotMessage {
    /// Log these channels.
    JoinChannels(Vec<String>),
    /// Stop logging these channels.
    PartChannels(Vec<String>),
}

/// Why a command is not carried out.
#[derive(Debug)]
pub enum CommandError {
    /// The user of this login is no admin.
    NotAdmin(String),
    /// No channel was named.
    NoChannels,
    /// No opt-out code was given.
    NoOptoutCode,
    /// The opt-out code is not one that was handed out.
    InvalidOptoutCode,
}

/// The characters of a [`CommandError`].
pub ghost enum ErrorView {
    NotAdmin(Seq<char>),
    NoChannels,
    NoOptoutCode,
    InvalidOptoutCode,
}

impl View for CommandError {
    type V = ErrorView;

    open spec fn view(&self) -> ErrorView {
        match self {
            CommandError::NotAdmin(login) => ErrorView::NotAdmin(login@),
            CommandError::NoChannels => ErrorView::NoChannels,
            CommandError::NoOptoutCode => ErrorView::NoOptoutCode,
            CommandError::InvalidOptoutCode => ErrorView::InvalidOptoutCode,
        }
    }
}

/// An error in words.
pub open spec fn error_text(error: ErrorView) -> Seq<char> {
    match error {
        ErrorView::NotAdmin(login) => "User "@ + login + " is not an admin"@,
        ErrorView::NoChannels => "no channels specified"@,
        ErrorView::NoOptoutCode => "No optout code provided"@,
        ErrorView::InvalidOptoutCode => "Invalid optout code"@,
    }
}

impl CommandError {
    /// The error in words.
    pub fn message(&self) -> (r: String)
        ensures
            r@ == error_text(self@),
    {
        match self {
            CommandError::NotAdmin(login) => {
                let start: String = join("User ", login.as_str());
                join(start.as_str(), " is not an admin")
            },
            CommandError::NoChannels => "no channels specified".to_owned(),
            CommandError::NoOptoutCode => "No optout code provided".to_owned(),
            CommandError::InvalidOptoutCode => "Invalid optout code".to_owned(),
        }
    }
}

/// What a command comes to.
pub enum CommandPlan {
    /// Nothing.
    Nothing,
    /// Do something with the channels of these logins.
    UpdateChannels { channels: Vec<String>, action: ChannelAction },
    /// Opt a user out by a code.
    OptOut { code: String },
}

/// The characters of a [`CommandPlan`].
pub ghost enum PlanView {
    Nothing,
    UpdateChannels { channels: Seq<Seq<char>>, action: ChannelAction },
    OptOut { code: Seq<char> },
}

impl View for CommandPlan {
    type V = PlanView;

    open spec fn view(&self) -> PlanView {
        match self {
            CommandPlan::Nothing => PlanView::Nothing,
            CommandPlan::UpdateChannels { channels, action } => PlanView::UpdateChannels {
                channels: texts(channels@),
                action: *action,
            },
            CommandPlan::OptOut { code } => PlanView::OptOut { code: code@ },
        }
    }
}

/// The characters of a plan or of the reason why there is none.
pub open spec fn plan_view(r: Result<CommandPlan, CommandError>) -> Result<PlanView, ErrorView> {
    match r {
        Ok(plan) => Ok(plan@),
        Err(error) => Err(error@),
    }
}

/// What doing something with some channels comes to.
pub open spec fn channels_plan(channels: Seq<Seq<char>>, action: ChannelAction) -> Result<
    PlanView,
    ErrorView,
> {
    if channels.len() == 0 {
        Err(ErrorView::NoChannels)
    } else {
        Ok(PlanView::UpdateChannels { channels, action })
    }
}

/// What doing something with some channels comes to if only admins may ask for it.
pub open spec fn admin_channels_plan(
    admins: Seq<Seq<char>>,
    sender: Seq<char>,
    channels: Seq<Seq<char>>,
    action: ChannelAction,
) -> Result<PlanView, ErrorView> {
    if admins.contains(sender) {
        channels_plan(channels, action)
    } else {
        Err(ErrorView::NotAdmin(sender))
    }
}

/// What a command comes to, given the admins and the login of who gave it. The first word says what
/// to do, the others what to do it with; white space around them does not matter.
pub open spec fn command_plan(
    admins: Seq<Seq<char>>,
    sender: Seq<char>,
    command: Seq<char>,
) -> Result<PlanView, ErrorView> {
    let all = words(command);
    if all.len() == 0 {
        Ok(PlanView::Nothing)
    } else {
        let args = all.skip(1);
        if all[0] == "join"@ {
            admin_channels_plan(admins, sender, args, ChannelAction::Join)
        } else if all[0] == "leave"@ || all[0] == "part"@ {
            admin_channels_plan(admins, sender, args, ChannelAction::Part)
        } else if all[0] == "optout"@ {
            if args.len() == 0 {
                Err(ErrorView::NoOptoutCode)
            } else {
                Ok(PlanView::OptOut { code: args[0] })
            }
        } else {
            Ok(PlanView::Nothing)
        }
    }
}

/// Checks that a login is that of an admin.
pub fn check_admin(admins: &Vec<String>, user_login: &str) -> (r: Result<(), CommandError>)
    ensures
        match r {
            Ok(_) => texts(admins@).contains(user_login@),
            Err(error) => !texts(admins@).contains(user_login@) && error@ == ErrorView::NotAdmin(
                user_login@,
            ),
        },
{
    for i in 0..admins.len()
        invariant
            forall|k: int| 0 <= k < i ==> (#[trigger] texts(admins@)[k]) != user_login@,
    {
        if same(admins[i].as_str(), user_login) {
            assert(texts(admins@)[i as int] == user_login@);
            return Ok(());
        }
    }
    Err(CommandError::NotAdmin(user_login.to_owned()))
}

/// What doing something with some channels comes to.
pub fn update_channels(channels: Vec<String>, action: ChannelAction) -> (r: Result<
    CommandPlan,
    CommandError,
>)
    ensures
        plan_view(r) == channels_plan(texts(channels@), action),
{
    if channels.len() == 0 {
        return Err(CommandError::NoChannels);
    }
    Ok(CommandPlan::UpdateChannels { channels, action })
}

/// Some texts without the first.
fn rest_of(all: &Vec<String>) -> (r: Vec<String>)
    requires
        all@.len() > 0,
    ensures
        texts(r@) == texts(all@).skip(1),
{
    let mut r: Vec<String> = Vec::new();
    for i in 1..all.len()
        invariant
            all@.len() > 0,
            r@ == all@.subrange(1, i as int),
    {
        r.push(all[i].clone());
    }
    assert(r@ == all@.skip(1));
    assert(texts(r@) == texts(all@).skip(1));
    r
}

/// What a command comes to, given the admins and the login of who gave it.
pub fn handle_command(admins: &Vec<String>, sender_login: &str, command: &str) -> (r: Result<
    CommandPlan,
    CommandError,
>)
    ensures
        plan_view(r) == command_plan(texts(admins@), sender_login@, command@),
        ({
            let all = words(command@);
            all.len() > 1 && (all[0] == "join"@ || all[0] == "leave"@ || all[0] == "part"@) && texts(
                admins@,
            ).contains(sender_login@) ==> {
                &&& r matches Ok(CommandPlan::UpdateChannels { channels, action })
                &&& texts(channels@) == all.skip(1)
                &&& action == if all[0] == "join"@ {
                    ChannelAction::Join
                } else {
                    ChannelAction::Part
                }
            }
        }),
{
    let all: Vec<String> = split_words(command);
    if all.len() == 0 {
        return Ok(CommandPlan::Nothing);
    }
    let args: Vec<String> = rest_of(&all);
    let word: &str = all[0].as_str();
    assert(texts(all@)[0] == word@);
    if same(word, "join") {
        match check_admin(admins, sender_login) {
            Ok(_) => update_channels(args, ChannelAction::Join),
            Err(error) => Err(error),
        }
    } else if same(word, "leave") || same(word, "part") {
        match check_admin(admins, sender_login) {
            Ok(_) => update_channels(args, ChannelAction::Part),
            Err(error) => Err(error),
        }
    } else if same(word, "optout") {
        if args.len() == 0 {
            Err(CommandError::NoOptoutCode)
        } else {
            assert(texts(args@)[0] == args@[0]@);
            Ok(CommandPlan::OptOut { code: args[0].clone() })
        }
    } else {
        Ok(CommandPlan::Nothing)
    }
}

/// What a request from another part of the program comes to.
pub open spec fn request_plan(message: BotMessage) -> Result<PlanView, ErrorView> {
    match message {
        BotMessage::JoinChannels(channels) => channels_plan(texts(channels@), ChannelAction::Join),
        BotMessage::PartChannels(channels) => channels_plan(texts(channels@), ChannelAction::Part),
    }
}

/// What a request from another part of the program comes to.
pub fn handle_request(message: BotMessage) -> (r: Result<CommandPlan, CommandError>)
    ensures
        plan_view(r) == request_plan(message),
{
    match message {
        BotMessage::JoinChannels(channels) => update_channels(channels, ChannelAction::Join),
        BotMessage::PartChannels(channels) => update_channels(channels, ChannelAction::Part),
    }
}

/// Whom to opt out.
pub enum OptoutTarget {
    /// The user with this id.
    UserId(String),
    /// The user with this login.
    UserNamed(String),
}

/// The characters of an [`OptoutTarget`].
pub ghost enum TargetView {
    UserId(Seq<char>),
    UserNamed(Seq<char>),
}

/// The characters of a target or of the reason why there is none.
pub open spec fn target_view(r: Result<OptoutTarget, CommandError>) -> Result<
    TargetView,
    ErrorView,
> {
    match r {
        Ok(OptoutTarget::UserId(id)) => Ok(TargetView::UserId(id@)),
        Ok(OptoutTarget::UserNamed(login)) => Ok(TargetView::UserNamed(login@)),
        Err(error) => Err(error@),
    }
}

/// Whom an opt-out command is about: who gave it, if the code is one that was handed out; otherwise
/// an admin can name another user in place of a code.
pub open spec fn optout_plan(
    admins: Seq<Seq<char>>,
    sender_login: Seq<char>,
    sender_id: Seq<char>,
    code: Seq<char>,
    code_was_valid: bool,
) -> Result<TargetView, ErrorView> {
    if code_was_valid {
        Ok(TargetView::UserId(sender_id))
    } else if admins.contains(sender_login) {
        Ok(TargetView::UserNamed(code))
    } else {
        Err(ErrorView::InvalidOptoutCode)
    }
}

/// Whom an opt-out command is about, given whether the code was one that was handed out.
pub fn optout_user(
    admins: &Vec<String>,
    sender_login: &str,
    sender_id: &str,
    code: String,
    code_was_valid: bool,
) -> (r: Result<OptoutTarget, CommandError>)
    ensures
        target_view(r) == optout_plan(
            texts(admins@),
            sender_login@,
            sender_id@,
            code@,
            code_was_valid,
        ),
{
    if code_was_valid {
        return Ok(OptoutTarget::UserId(sender_id.to_owned()));
    }
    match check_admin(admins, sender_login) {
        Ok(_) => Ok(OptoutTarget::UserNamed(code)),
        Err(_) => Err(CommandError::InvalidOptoutCode),
    }
}

/// A change to the logged channels that is under way.
pub struct ChannelUpdate {
    action: ChannelAction,
    users: VecDeque<(String, String)>,
    refused: bool,
    saved: bool,
}

/// Where a [`ChannelUpdate`] stands.
pub ghost struct UpdateView {
    /// What is done with the channels.
    pub action: ChannelAction,
    /// The ids and logins of the channels that are still to be dealt with.
    pub users: Seq<(String, String)>,
    /// Whether a step was refused.
    pub refused: bool,
    /// Whether the list of channels was told to be saved.
    pub saved: bool,
}

/// What a change to the logged channels is to do.
pub enum ChannelStep {
    /// Add the id to the list of channels, and join the channel with the login.
    Join { channel_id: String, channel_login: String },
    /// Remove the id from the list of channels, and leave the channel with the login.
    Part { channel_id: String, channel_login: String },
    /// Save the list of channels.
    Save,
    /// There is nothing left to do.
    Done,
    /// Give up, since a step was refused.
    Refused,
}

/// What a change does next, and where it stands then, given whether its last step was carried out.
pub open spec fn next_update(s: UpdateView, carried_out: bool) -> (UpdateView, ChannelStep) {
    if s.refused || !carried_out {
        (UpdateView { refused: true, ..s }, ChannelStep::Refused)
    } else if s.users.len() > 0 {
        let (channel_id, channel_login) = s.users[0];
        (
            UpdateView { users: s.users.drop_first(), ..s },
            match s.action {
                ChannelAction::Join => ChannelStep::Join { channel_id, channel_login },
                ChannelAction::Part => ChannelStep::Part { channel_id, channel_login },
            },
        )
    } else if !s.saved {
        (UpdateView { saved: true, ..s }, ChannelStep::Save)
    } else {
        (s, ChannelStep::Done)
    }
}

impl View for ChannelUpdate {
    type V = UpdateView;

    closed spec fn view(&self) -> UpdateView {
        UpdateView {
            action: self.action,
            users: self.users@,
            refused: self.refused,
            saved: self.saved,
        }
    }
}

impl ChannelUpdate {
    /// A change to the channels with these ids and logins.
    pub fn new(action: ChannelAction, users: Vec<(String, String)>) -> (r: Self)
        ensures
            r@ == (UpdateView { action, users: users@, refused: false, saved: false }),
            r@ == fresh_update(action, users@),
    {
        let ghost all = users@;
        let mut queue: VecDeque<(String, String)> = VecDeque::new();
        for user in it: users
            invariant
                it.seq() == all,
                queue@ == all.take(it.index() as int),
        {
            queue.push_back(user);
        }
        assert(all.take(all.len() as int) == all);
        ChannelUpdate { action, users: queue, refused: false, saved: false }
    }

    /// What to do next, given whether the last step was carried out. Before the first step there
    /// was none to refuse.
    pub fn next_step(&mut self, carried_out: bool) -> (step: ChannelStep)
        ensures
            (final(self)@, step) == next_update(old(self)@, carried_out),
    {
        if self.refused || !carried_out {
            self.refused = true;
            return ChannelStep::Refused;
        }
        match self.users.pop_front() {
            Some((channel_id, channel_login)) => {
                assert(self@.users == old(self)@.users.drop_first());
                match self.action {
                    ChannelAction::Join => ChannelStep::Join { channel_id, channel_login },
                    ChannelAction::Part => ChannelStep::Part { channel_id, channel_login },
                }
            },
            None => {
                if !self.saved {
                    self.saved = true;
                    ChannelStep::Save
                } else {
                    ChannelStep::Done
                }
            },
        }
    }
}

/// Channels are changed by chat commands of admins only.
pub proof fn only_admins_change_channels(
    admins: Seq<Seq<char>>,
    sender: Seq<char>,
    command: Seq<char>,
)
    ensures
        (command_plan(admins, sender, command) matches Ok(plan) && plan is UpdateChannels)
            ==> admins.contains(sender),
{
}

/// Without a code that was handed out, nobody but an admin opts anybody out, by login, and with one,
/// the user who gave it is the one opted out. Everybody else is told that the code is invalid.
pub proof fn optouts_are_authorised(
    admins: Seq<Seq<char>>,
    sender_login: Seq<char>,
    sender_id: Seq<char>,
    code: Seq<char>,
    code_was_valid: bool,
)
    ensures
        ({
            let plan = optout_plan(admins, sender_login, sender_id, code, code_was_valid);
            &&& plan is Ok <==> code_was_valid || admins.contains(sender_login)
            &&& code_was_valid ==> plan == Ok::<TargetView, ErrorView>(
                TargetView::UserId(sender_id),
            )
            &&& !code_was_valid && admins.contains(sender_login) ==> plan == Ok::<
                TargetView,
                ErrorView,
            >(TargetView::UserNamed(code))
            &&& plan is Err ==> plan == Err::<TargetView, ErrorView>(ErrorView::InvalidOptoutCode)
        }),
{
}

/// The list of channels is saved only once every channel was dealt with and no step was refused;
/// after a refused step nothing more is done.
pub proof fn refused_update_is_not_saved(s: UpdateView, carried_out: bool)
    ensures
        ({
            let (after, step) = next_update(s, carried_out);
            &&& step is Save ==> s.users.len() == 0 && !s.refused && carried_out
            &&& s.refused || !carried_out ==> step is Refused && after.refused && after.saved
                == s.saved
        }),
{
}

/// The step for one channel.
pub open spec fn channel_step(action: ChannelAction, user: (String, String)) -> ChannelStep {
    match action {
        ChannelAction::Join => ChannelStep::Join { channel_id: user.0, channel_login: user.1 },
        ChannelAction::Part => ChannelStep::Part { channel_id: user.0, channel_login: user.1 },
    }
}

/// The steps of a change, each of which is carried out.
pub open spec fn steps_of(s: UpdateView) -> Seq<ChannelStep>
    decreases
            s.users.len(),
            if s.saved {
                0int
            } else {
                1
            },
{
    let (after, step) = next_update(s, true);
    match step {
        ChannelStep::Done => Seq::empty(),
        ChannelStep::Refused => Seq::empty(),
        _ => seq![step] + steps_of(after),
    }
}

/// A change whose steps are carried out deals with each channel once, in order, and saves the list
/// of channels at the end.
pub proof fn update_deals_with_each_channel(s: UpdateView)
    requires
        !s.refused,
        !s.saved,
    ensures
        steps_of(s) == s.users.map_values(|user: (String, String)| channel_step(s.action, user))
            + seq![ChannelStep::Save],
    decreases s.users.len(),
{
    let (after, step) = next_update(s, true);
    let per_channel = |user: (String, String)| channel_step(s.action, user);
    if s.users.len() > 0 {
        update_deals_with_each_channel(after);
        assert(s.users.map_values(per_channel) == seq![step] + after.users.map_values(per_channel));
        assert(steps_of(s) == seq![step] + steps_of(after));
    } else {
        assert(steps_of(after) == Seq::<ChannelStep>::empty());
        assert(s.users.map_values(per_channel) == Seq::<ChannelStep>::empty());
        assert(steps_of(s) == seq![ChannelStep::Save] + Seq::<ChannelStep>::empty());
    }
}

/// The ids of the logged channels once some steps were carried out.
pub open spec fn channels_after(ids: Set<Seq<char>>, steps: Seq<ChannelStep>) -> Set<Seq<char>>
    decreases steps.len(),
{
    if steps.len() == 0 {
        ids
    } else {
        let before = channels_after(ids, steps.drop_last());
        match steps.last() {
            ChannelStep::Join { channel_id, .. } => before.insert(channel_id@),
            ChannelStep::Part { channel_id, .. } => before.remove(channel_id@),
            _ => before,
        }
    }
}

/// The ids of some channels.
pub open spec fn ids_of(users: Seq<(String, String)>) -> Set<Seq<char>> {
    Set::new(|id: Seq<char>| exists|i: int| 0 <= i < users.len() && (#[trigger] users[i]).0@ == id)
}

/// A change to some channels that was not started yet.
pub open spec fn fresh_update(action: ChannelAction, users: Seq<(String, String)>) -> UpdateView {
    UpdateView { action, users, refused: false, saved: false }
}

/// One more channel adds its id.
proof fn lemma_id_added(users: Seq<(String, String)>)
    requires
        users.len() > 0,
    ensures
        ids_of(users) == ids_of(users.drop_last()).insert(users.last().0@),
{
    let before = users.drop_last();
    assert forall|id: Seq<char>| ids_of(users).contains(id) <==> ids_of(before).contains(id) || id
        == users.last().0@ by {
        if ids_of(before).contains(id) {
            let i = choose|i: int| 0 <= i < before.len() && (#[trigger] before[i]).0@ == id;
            assert(users[i].0@ == id);
        }
        if id == users.last().0@ {
            assert(users[users.len() - 1].0@ == id);
        }
        if ids_of(users).contains(id) && id != users.last().0@ {
            let i = choose|i: int| 0 <= i < users.len() && (#[trigger] users[i]).0@ == id;
            assert(before[i].0@ == id);
        }
    }
    assert(ids_of(users) =~= ids_of(before).insert(users.last().0@));
}

/// What the steps for some channels make of the list.
proof fn lemma_channels_after(
    ids: Set<Seq<char>>,
    action: ChannelAction,
    users: Seq<(String, String)>,
)
    ensures
        channels_after(
            ids,
            users.map_values(|user: (String, String)| channel_step(action, user)),
        ) == match action {
            ChannelAction::Join => ids.union(ids_of(users)),
            ChannelAction::Part => ids.difference(ids_of(users)),
        },
    decreases users.len(),
{
    let per_channel = |user: (String, String)| channel_step(action, user);
    let steps = users.map_values(per_channel);
    if users.len() == 0 {
        assert(ids.union(ids_of(users)) =~= ids);
        assert(ids.difference(ids_of(users)) =~= ids);
    } else {
        lemma_channels_after(ids, action, users.drop_last());
        lemma_id_added(users);
        assert(steps.drop_last() == users.drop_last().map_values(per_channel));
        assert(steps.last() == channel_step(action, users.last()));
        let before = ids_of(users.drop_last());
        let id = users.last().0@;
        assert(ids.union(before).insert(id) =~= ids.union(ids_of(users)));
        assert(ids.difference(before).remove(id) =~= ids.difference(ids_of(users)));
    }
}

/// A change whose steps are carried out adds the ids of its channels to the list, or takes them off
/// it, and leaves the others.
pub proof fn update_changes_the_named_channels(
    ids: Set<Seq<char>>,
    action: ChannelAction,
    users: Seq<(String, String)>,
)
    ensures
        channels_after(ids, steps_of(fresh_update(action, users))) == match action {
            ChannelAction::Join => ids.union(ids_of(users)),
            ChannelAction::Part => ids.difference(ids_of(users)),
        },
{
    let s = fresh_update(action, users);
    update_deals_with_each_channel(s);
    lemma_channels_after(ids, action, users);
    let steps = users.map_values(|user: (String, String)| channel_step(action, user));
    assert(steps_of(s) == steps.push(ChannelStep::Save));
    assert(steps_of(s).drop_last() == steps);
}

/// Joining channels that are not on the list, and leaving them again, restores the list; leaving
/// them once more changes nothing.
pub proof fn parting_undoes_joining(
    ids: Set<Seq<char>>,
    joined: Seq<(String, String)>,
    parted: Seq<(String, String)>,
)
    requires
        ids.disjoint(ids_of(joined)),
        ids_of(parted) == ids_of(joined),
    ensures
        ({
            let join = steps_of(fresh_update(ChannelAction::Join, joined));
            let part = steps_of(fresh_update(ChannelAction::Part, parted));
            &&& channels_after(channels_after(ids, join), part) == ids
            &&& channels_after(ids, part) == ids
        }),
{
    update_changes_the_named_channels(ids, ChannelAction::Join, joined);
    update_changes_the_named_channels(ids, ChannelAction::Part, parted);
    let more = ids.union(ids_of(joined));
    update_changes_the_named_channels(more, ChannelAction::Part, parted);
    assert(more.difference(ids_of(joined)) =~= ids);
    assert(ids.difference(ids_of(joined)) =~= ids);
}

/// What an opt-out command makes of the codes that were handed out, and whom it is about: the code
/// is used up, and counts if it was handed out.
pub open spec fn optout_turn(
    codes: Set<Seq<char>>,
    admins: Seq<Seq<char>>,
    sender_login: Seq<char>,
    sender_id: Seq<char>,
    code: Seq<char>,
) -> (Set<Seq<char>>, Result<TargetView, ErrorView>) {
    (
        codes.remove(code),
        optout_plan(admins, sender_login, sender_id, code, codes.contains(code)),
    )
}

/// An opt-out code works once: unless it is handed out again, whoever gives it next is refused, but
/// for an admin, for whom it is the login of another user.
pub proof fn optout_code_works_once(
    codes: Set<Seq<char>>,
    later: Set<Seq<char>>,
    admins: Seq<Seq<char>>,
    first: (Seq<char>, Seq<char>),
    second: (Seq<char>, Seq<char>),
    code: Seq<char>,
)
    requires
        codes.contains(code),
        later.contains(code) ==> optout_turn(codes, admins, first.0, first.1, code).0.contains(code),
    ensures
        optout_turn(codes, admins, first.0, first.1, code).1 == Ok::<TargetView, ErrorView>(
            TargetView::UserId(first.1),
        ),
        optout_turn(later, admins, second.0, second.1, code).1 == if admins.contains(second.0) {
            Ok::<TargetView, ErrorView>(TargetView::UserNamed(code))
        } else {
            Err(ErrorView::InvalidOptoutCode)
        },
{
}

/// An admin who gives a channel command names all channels with the words after the first, in order:
/// to be joined with `join`, and to be left with `leave` or `part`.
pub proof fn channel_commands_name_every_channel(
    admins: Seq<Seq<char>>,
    sender: Seq<char>,
    command: Seq<char>,
)
    requires
        words(command).len() > 1,
        words(command)[0] == "join"@ || words(command)[0] == "leave"@ || words(command)[0]
            == "part"@,
        admins.contains(sender),
    ensures
        command_plan(admins, sender, command) matches Ok(PlanView::UpdateChannels {
            channels,
            action,
        }) && channels.len() == words(command).len() - 1 && (forall|i: int|
            0 <= i < channels.len() ==> #[trigger] channels[i] == words(command)[i + 1]) && action
            == if words(command)[0] == "join"@ {
            ChannelAction::Join
        } else {
            ChannelAction::Part
        },
{
    lemma_command_words_differ();
}

/// A channel command without channels, or of somebody who is no admin, is refused for just that
/// reason.
pub proof fn channel_commands_are_refused_for_a_reason(
    admins: Seq<Seq<char>>,
    sender: Seq<char>,
    command: Seq<char>,
)
    requires
        words(command).len() > 0,
        words(command)[0] == "join"@ || words(command)[0] == "leave"@ || words(command)[0]
            == "part"@,
    ensures
        !admins.contains(sender) ==> command_plan(admins, sender, command) == Err::<
            PlanView,
            ErrorView,
        >(ErrorView::NotAdmin(sender)),
        admins.contains(sender) && words(command).len() == 1 ==> command_plan(
            admins,
            sender,
            command,
        ) == Err::<PlanView, ErrorView>(ErrorView::NoChannels),
{
    lemma_command_words_differ();
}

/// Anybody can give an opt-out command, whose code is the word after the first.
pub proof fn optout_commands_take_the_next_word(
    admins: Seq<Seq<char>>,
    sender: Seq<char>,
    command: Seq<char>,
)
    requires
        words(command).len() > 0,
        words(command)[0] == "optout"@,
    ensures
        command_plan(admins, sender, command) == if words(command).len() > 1 {
            Ok::<PlanView, ErrorView>(PlanView::OptOut { code: words(command)[1] })
        } else {
            Err(ErrorView::NoOptoutCode)
        },
{
    lemma_command_words_differ();
}

/// No other command does anything, and nobody is told so.
pub proof fn other_commands_do_nothing(
    admins: Seq<Seq<char>>,
    sender: Seq<char>,
    command: Seq<char>,
)
    requires
        words(command).len() > 0 ==> {
            let word = words(command)[0];
            word != "join"@ && word != "leave"@ && word != "part"@ && word != "optout"@
        },
    ensures
        command_plan(admins, sender, command) == Ok::<PlanView, ErrorView>(PlanView::Nothing),
{
}

/// The words that commands start with are different.
proof fn lemma_command_words_differ()
    ensures
        "join"@ != "leave"@,
        "join"@ != "part"@,
        "join"@ != "optout"@,
        "leave"@ != "optout"@,
        "part"@ != "optout"@,
{
    reveal_strlit("join");
    reveal_strlit("leave");
    reveal_strlit("part");
    reveal_strlit("optout");
    assert("join"@[0] == 'j' && "leave"@[0] == 'l' && "part"@[0] == 'p' && "optout"@[0] == 'o');
}

/// A request of another part of the program is about all channels that it names, whoever asks; one
/// that names none is refused.
pub proof fn requests_are_about_every_channel(channels: Vec<String>)
    ensures
        channels@.len() == 0 ==> request_plan(BotMessage::JoinChannels(channels)) == Err::<
            PlanView,
            ErrorView,
        >(ErrorView::NoChannels),
        channels@.len() == 0 ==> request_plan(BotMessage::PartChannels(channels)) == Err::<
            PlanView,
            ErrorView,
        >(ErrorView::NoChannels),
        channels@.len() > 0 ==> request_plan(BotMessage::JoinChannels(channels)) == Ok::<
            PlanView,
            ErrorView,
        >(
            PlanView::UpdateChannels {
                channels: Seq::new(channels@.len(), |i: int| channels@[i]@),
                action: ChannelAction::Join,
            },
        ),
        channels@.len() > 0 ==> request_plan(BotMessage::PartChannels(channels)) == Ok::<
            PlanView,
            ErrorView,
        >(
            PlanView::UpdateChannels {
                channels: Seq::new(channels@.len(), |i: int| channels@[i]@),
                action: ChannelAction::Part,
            },
        ),
{
    assert(texts(channels@) =~= Seq::new(channels@.len(), |i: int| channels@[i]@));
}

/// The view of a plan shows all of it.
pub proof fn plan_view_shows_all(channels: Vec<String>, action: ChannelAction, code: String)
    ensures
        CommandPlan::Nothing@ == PlanView::Nothing,
        (CommandPlan::UpdateChannels { channels, action })@ == (PlanView::UpdateChannels {
            channels: Seq::new(channels@.len(), |i: int| channels@[i]@),
            action,
        }),
        (CommandPlan::OptOut { code })@ == (PlanView::OptOut { code: code@ }),
{
    assert(texts(channels@) =~= Seq::new(channels@.len(), |i: int| channels@[i]@));
}

/// A change starts with all of its channels, none of them dealt with.
pub proof fn update_starts_with_every_channel(action: ChannelAction, users: Seq<(String, String)>)
    ensures
        fresh_update(action, users).action == action,
        fresh_update(action, users).users == users,
        !fresh_update(action, users).refused,
        !fresh_update(action, users).saved,
{
}

/// What is shown of results is all there is to them.
pub proof fn command_results_are_shown(
    plan: CommandPlan,
    text: String,
    error: CommandError,
)
    ensures
        plan_view(Ok(plan)) == Ok::<PlanView, ErrorView>(plan@),
        plan_view(Err(error)) == Err::<PlanView, ErrorView>(error@),
        target_view(Ok(OptoutTarget::UserId(text))) == Ok::<TargetView, ErrorView>(
            TargetView::UserId(text@),
        ),
        target_view(Ok(OptoutTarget::UserNamed(text))) == Ok::<TargetView, ErrorView>(
            TargetView::UserNamed(text@),
        ),
        target_view(Err(error)) == Err::<TargetView, ErrorView>(error@),
        CommandError::NotAdmin(text)@ == ErrorView::NotAdmin(text@),
        CommandError::NoChannels@ == ErrorView::NoChannels,
        CommandError::NoOptoutCode@ == ErrorView::NoOptoutCode,
        CommandError::InvalidOptoutCode@ == ErrorView::InvalidOptoutCode,
{
}

/// Errors are told in words, with the login of who is no admin.
pub proof fn errors_are_told_in_words(login: Seq<char>)
    ensures
        error_text(ErrorView::NotAdmin(login)) == "User "@ + login + " is not an admin"@,
        error_text(ErrorView::NoChannels) == "no channels specified"@,
        error_text(ErrorView::NoOptoutCode) == "No optout code provided"@,
        error_text(ErrorView::InvalidOptoutCode) == "Invalid optout code"@,
{
}

/// The step for a channel names its id and its login, and is the one that was asked for; then the
/// channel is done with.
pub proof fn step_names_id_and_login(s: UpdateView)
    requires
        !s.refused,
        s.users.len() > 0,
    ensures
        ({
            let (after, step) = next_update(s, true);
            &&& s.action is Join ==> (step matches ChannelStep::Join { channel_id, channel_login }
                && channel_id == s.users[0].0 && channel_login == s.users[0].1)
            &&& s.action is Part ==> (step matches ChannelStep::Part { channel_id, channel_login }
                && channel_id == s.users[0].0 && channel_login == s.users[0].1)
            &&& after.users.len() == s.users.len() - 1
            &&& forall|i: int|
                0 <= i < after.users.len() ==> #[trigger] after.users[i] == s.users[i + 1]
            &&& after.action == s.action && !after.refused && after.saved == s.saved
        }),
{
}

/// Without channels left the list is saved once, and nothing is done from then on.
pub proof fn list_is_saved_once(s: UpdateView)
    requires
        !s.refused,
        s.users.len() == 0,
    ensures
        ({
            let (after, step) = next_update(s, true);
            let (end, last) = next_update(after, true);
            &&& step is Save <==> !s.saved
            &&& s.saved ==> step is Done
            &&& last is Done && end == after && after.saved
        }),
{
}

} // verus!
