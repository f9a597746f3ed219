//! Resolves `--group` arguments into per-user Linux group assignments.
use crate::cli::{is_group_name, MAX_GROUP_NAME_LENGTH};
use crate::names::{lemma_push_to_set, lists, NameSet};
use crate::store::UserId;
use crate::text::{chars_of, is_digit, same_text, string_of, texts};
use std::collections::HashMap;
use vstd::prelude::*;

verus! {

/// Bounds concurrency of requests for team members.
pub const MAX_CONCURRENT_TEAM_FETCHES: usize = 8;

/// A global Linux group or a GitHub-team-to-Linux-group mapping.
#[derive(Debug, PartialEq, Eq)]
pub enum GroupMapping {
    /// Every synced user is added to the group.
    AddGroup(String),
    /// The members of the team are added to the group.
    MapGitHubTeam { gh_team: String, linux_group: String },
}

/// A mapping as contracts see it.
pub enum MappingView {
    AddGroup(Seq<char>),
    MapGitHubTeam { gh_team: Seq<char>, linux_group: Seq<char> },
}

impl View for GroupMapping {
    type V = MappingView;

    open spec fn view(&self) -> MappingView {
        match self {
            GroupMapping::AddGroup(group) => MappingView::AddGroup(group@),
            GroupMapping::MapGitHubTeam { gh_team, linux_group } => MappingView::MapGitHubTeam {
                gh_team: gh_team@,
                linux_group: linux_group@,
            },
        }
    }
}

impl Clone for GroupMapping {
    fn clone(&self) -> (r: Self)
        ensures
            r == *self,
    {
        match self {
            GroupMapping::AddGroup(group) => GroupMapping::AddGroup(group.clone()),
            GroupMapping::MapGitHubTeam { gh_team, linux_group } => GroupMapping::MapGitHubTeam {
                gh_team: gh_team.clone(),
                linux_group: linux_group.clone(),
            },
        }
    }
}

/// The refusal of a mapping.
#[derive(Debug)]
pub enum InvalidMapping {
    /// The text is no team slug.
    Slug(String),
    /// The text is no portable group name.
    Group(String),
}

impl InvalidMapping {
    /// What to report.
    pub fn message(&self) -> (r: String)
        ensures
            r@ == match self {
                InvalidMapping::Slug(slug) => "Invalid GitHub team slug '"@ + slug@
                    + "'. Use the team slug (lowercase letters, digits, '-' and '_'), not the team name."@,
                InvalidMapping::Group(group) => "Invalid group name '"@ + group@
                    + "'. Group names must match [a-z_][a-z0-9_-]*, not end with '-' and be at most 32 characters long."@,
            },
    {
        match self {
            InvalidMapping::Slug(slug) => {
                let mut r = "Invalid GitHub team slug '".to_owned();
                r.append(slug.as_str());
                r.append(
                    "'. Use the team slug (lowercase letters, digits, '-' and '_'), not the team name.",
                );
                r
            },
            InvalidMapping::Group(group) => {
                let mut r = "Invalid group name '".to_owned();
                r.append(group.as_str());
                r.append(
                    "'. Group names must match [a-z_][a-z0-9_-]*, not end with '-' and be at most 32 characters long.",
                );
                r
            },
        }
    }
}

/// Whether `c` is a lowercase ASCII letter.
pub open spec fn is_lowercase(c: char) -> bool {
    'a' <= c <= 'z'
}

/// Whether `c` is a lowercase letter, a digit, `_` or `-`.
pub open spec fn is_name_char(c: char) -> bool {
    is_lowercase(c) || is_digit(c) || c == '_' || c == '-'
}

/// Whether a text is not empty and made of lowercase letters, digits, `_` and `-`, the character
/// set shared by GitHub team slugs and portable Linux group names.
pub open spec fn has_name_charset(s: Seq<char>) -> bool {
    s.len() > 0 && forall|i: int| 0 <= i < s.len() ==> is_name_char(#[trigger] s[i])
}

/// Whether a text is a portable group name. On top of the shared charset, it must not start with a
/// digit or `-` nor end with `-`, and its length is limited.
pub open spec fn is_portable_group_name(s: Seq<char>) -> bool {
    &&& has_name_charset(s)
    &&& s.len() <= MAX_GROUP_NAME_LENGTH
    &&& is_lowercase(s[0]) || s[0] == '_'
    &&& s.last() != '-'
}

/// Whether the text is not empty and made of lowercase letters, digits, `_` and `-`.
pub fn is_valid_name_charset(s: &str) -> (r: bool)
    ensures
        r == has_name_charset(s@),
{
    let chars = chars_of(s);
    let mut i: usize = 0;
    while i < chars.len()
        invariant
            i <= chars@.len(),
            chars@ == s@,
            forall|j: int| 0 <= j < i ==> is_name_char(#[trigger] s@[j]),
        decreases chars@.len() - i,
    {
        let c = chars[i];
        if !(('a' <= c && c <= 'z') || ('0' <= c && c <= '9') || c == '_' || c == '-') {
            assert(!is_name_char(s@[i as int]));
            return false;
        }
        i = i + 1;
    }
    chars.len() > 0
}

/// Validate a GitHub team slug. Rejecting anything but slug characters keeps a team name typed by
/// mistake from reaching the API.
pub fn validate_team_slug(slug: &str) -> (r: Result<String, InvalidMapping>)
    ensures
        has_name_charset(slug@) ==> r is Ok && r->Ok_0@ == slug@,
        !has_name_charset(slug@) ==> r is Err && r->Err_0 is Slug && r->Err_0->Slug_0@ == slug@,
{
    if is_valid_name_charset(slug) {
        Ok(slug.to_owned())
    } else {
        Err(InvalidMapping::Slug(slug.to_owned()))
    }
}

/// Validate a Linux group name against the portable rules, so an invalid name fails when the
/// arguments are parsed instead of failing every sync.
pub fn validate_group_name(group: &str) -> (r: Result<String, InvalidMapping>)
    ensures
        is_portable_group_name(group@) ==> r is Ok && r->Ok_0@ == group@,
        !is_portable_group_name(group@) ==> r is Err && r->Err_0 is Group && r->Err_0->Group_0@
            == group@,
{
    let chars = chars_of(group);
    let n: usize = chars.len();
    let valid = is_valid_name_charset(group) && n <= MAX_GROUP_NAME_LENGTH && (('a' <= chars[0]
        && chars[0] <= 'z') || chars[0] == '_') && chars[n - 1] != '-';
    if valid {
        Ok(group.to_owned())
    } else {
        Err(InvalidMapping::Group(group.to_owned()))
    }
}

/// Every portable group name is a group name in the wider sense.
pub proof fn portable_names_are_group_names(s: Seq<char>)
    requires
        is_portable_group_name(s),
    ensures
        is_group_name(s),
{
}

/// Length of the part of `s` before its first colon, or of all of `s` if it has none.
pub open spec fn colon_at(s: Seq<char>) -> int
    decreases s.len(),
{
    if s.len() == 0 || s[0] == ':' {
        0
    } else {
        1 + colon_at(s.drop_first())
    }
}

/// The mapping that an argument stands for, if it is one: a group, or a team and a group with a
/// colon between them.
pub open spec fn mapping_of(s: Seq<char>) -> Option<MappingView> {
    let n = colon_at(s);
    if n >= s.len() {
        if is_portable_group_name(s) {
            Some(MappingView::AddGroup(s))
        } else {
            None
        }
    } else {
        let gh_team = s.take(n);
        let linux_group = s.skip(n + 1);
        if has_name_charset(gh_team) && is_portable_group_name(linux_group) {
            Some(MappingView::MapGitHubTeam { gh_team, linux_group })
        } else {
            None
        }
    }
}

/// A colon at `n`, with none before it, is the first one.
proof fn lemma_colon_at(s: Seq<char>, n: int)
    requires
        0 <= n <= s.len(),
        forall|i: int| 0 <= i < n ==> s[i] != ':',
        n < s.len() ==> s[n] == ':',
    ensures
        colon_at(s) == n,
    decreases s.len(),
{
    if n > 0 {
        lemma_colon_at(s.drop_first(), n - 1);
    }
}

impl GroupMapping {
    /// The mapping that an argument stands for. A bad team is reported before a bad group.
    pub fn from_str(s: &str) -> (r: Result<Self, InvalidMapping>)
        ensures
            match mapping_of(s@) {
                Some(mapping) => r is Ok && r->Ok_0@ == mapping,
                None => r is Err && {
                    let n = colon_at(s@);
                    if n >= s@.len() {
                        r->Err_0 is Group && r->Err_0->Group_0@ == s@
                    } else if !has_name_charset(s@.take(n)) {
                        r->Err_0 is Slug && r->Err_0->Slug_0@ == s@.take(n)
                    } else {
                        r->Err_0 is Group && r->Err_0->Group_0@ == s@.skip(n + 1)
                    }
                },
            },
    {
        let chars = chars_of(s);
        let mut n: usize = 0;
        while n < chars.len() && chars[n] != ':'
            invariant
                n <= chars@.len(),
                chars@ == s@,
                forall|i: int| 0 <= i < n ==> s@[i] != ':',
            decreases chars@.len() - n,
        {
            n = n + 1;
        }
        proof {
            lemma_colon_at(s@, n as int);
        }
        if n < chars.len() {
            let team = string_of(&chars, 0, n);
            let group = string_of(&chars, n + 1, chars.len());
            assert(team@ == s@.take(n as int));
            assert(group@ == s@.skip(n + 1));
            match validate_team_slug(team.as_str()) {
                Err(refusal) => Err(refusal),
                Ok(gh_team) => match validate_group_name(group.as_str()) {
                    Err(refusal) => Err(refusal),
                    Ok(linux_group) => Ok(GroupMapping::MapGitHubTeam { gh_team, linux_group }),
                },
            }
        } else {
            match validate_group_name(s) {
                Err(refusal) => Err(refusal),
                Ok(group) => Ok(GroupMapping::AddGroup(group)),
            }
        }
    }
}

/// The members of a team.
pub struct Team {
    /// The slug of the team.
    pub slug: String,
    /// The GitHub IDs of its members.
    pub members: Vec<UserId>,
}

/// The members of teams by their slug. Where a slug occurs twice, the last entry counts.
pub open spec fn members_by_slug(teams: Seq<Team>) -> Map<Seq<char>, Seq<UserId>>
    decreases teams.len(),
{
    if teams.len() == 0 {
        Map::empty()
    } else {
        members_by_slug(teams.drop_last()).insert(teams.last().slug@, teams.last().members@)
    }
}

/// The members of the teams that exist in the org, by the slug of the team.
pub struct TeamMembers {
    teams: Vec<Team>,
}

impl View for TeamMembers {
    type V = Map<Seq<char>, Seq<UserId>>;

    closed spec fn view(&self) -> Map<Seq<char>, Seq<UserId>> {
        members_by_slug(self.teams@)
    }
}

impl TeamMembers {
    /// No teams.
    pub fn new() -> (r: Self)
        ensures
            r@ == Map::<Seq<char>, Seq<UserId>>::empty(),
    {
        TeamMembers { teams: Vec::new() }
    }

    /// Adds a team with its members.
    pub fn insert(&mut self, slug: String, members: Vec<UserId>)
        ensures
            final(self)@ == old(self)@.insert(slug@, members@),
    {
        let ghost before = self.teams@;
        self.teams.push(Team { slug, members });
        assert(self.teams@.drop_last() == before);
    }

    /// The members of a team, if there is such a team.
    pub fn get(&self, slug: &str) -> (r: Option<&Vec<UserId>>)
        ensures
            match r {
                Some(members) => self@.contains_key(slug@) && members@ == self@[slug@],
                None => !self@.contains_key(slug@),
            },
    {
        let mut i: usize = self.teams.len();
        assert(self.teams@.take(i as int) == self.teams@);
        while i > 0
            invariant
                i <= self.teams@.len(),
                self@.contains_key(slug@) == members_by_slug(
                    self.teams@.take(i as int),
                ).contains_key(slug@),
                self@.contains_key(slug@) ==> self@[slug@] == members_by_slug(
                    self.teams@.take(i as int),
                )[slug@],
            decreases i,
        {
            assert(self.teams@.take(i as int).drop_last() == self.teams@.take(i - 1));
            if same_text(self.teams[i - 1].slug.as_str(), slug) {
                return Some(&self.teams[i - 1].members);
            }
            i = i - 1;
        }
        None
    }
}

/// The mappings as contracts see them.
pub open spec fn mappings_of(mappings: Seq<GroupMapping>) -> Seq<MappingView> {
    mappings.map_values(|m: GroupMapping| m@)
}

/// Whether a mapping needs the group to exist: a team mapping does so if the team exists, with or
/// without members.
pub open spec fn needs(
    mapping: MappingView,
    teams: Map<Seq<char>, Seq<UserId>>,
    group: Seq<char>,
) -> bool {
    match mapping {
        MappingView::AddGroup(name) => name == group,
        MappingView::MapGitHubTeam { gh_team, linux_group } => linux_group == group
            && teams.contains_key(gh_team),
    }
}

/// Whether a mapping puts the user into the group.
pub open spec fn grants(
    mapping: MappingView,
    teams: Map<Seq<char>, Seq<UserId>>,
    id: UserId,
    group: Seq<char>,
) -> bool {
    match mapping {
        MappingView::AddGroup(name) => name == group,
        MappingView::MapGitHubTeam { gh_team, linux_group } => linux_group == group
            && teams.contains_key(gh_team) && teams[gh_team].contains(id),
    }
}

/// The groups that must exist.
pub open spec fn needed_groups(
    mappings: Seq<MappingView>,
    teams: Map<Seq<char>, Seq<UserId>>,
) -> Set<Seq<char>> {
    Set::new(
        |group: Seq<char>|
            exists|i: int|
                0 <= i < mappings.len() && needs(#[trigger] mappings[i], teams, group),
    )
}

/// The groups that a user is to be in.
pub open spec fn granted_groups(
    mappings: Seq<MappingView>,
    teams: Map<Seq<char>, Seq<UserId>>,
    id: UserId,
) -> Set<Seq<char>> {
    Set::new(
        |group: Seq<char>|
            exists|i: int|
                0 <= i < mappings.len() && grants(#[trigger] mappings[i], teams, id, group),
    )
}

/// The Linux groups each synced user should be a member of, resolved once per sync from the
/// arguments and the GitHub team memberships.
pub struct GroupAssignments {
    /// Groups every synced user is added to.
    global: NameSet,
    /// Linux groups mapped from GitHub teams that exist in the org, including teams without
    /// members.
    team_groups: NameSet,
    /// Additional groups per user, derived from GitHub team memberships.
    per_user: HashMap<UserId, NameSet>,
}

impl Default for GroupAssignments {
    /// No groups for anybody.
    fn default() -> (r: Self)
        ensures
            r.needed() == Set::<Seq<char>>::empty(),
            forall|id: UserId| #[trigger] r.granted(id) == Set::<Seq<char>>::empty(),
    {
        let r = GroupAssignments {
            global: NameSet::new(),
            team_groups: NameSet::new(),
            per_user: HashMap::new(),
        };
        assert(r.needed() == Set::<Seq<char>>::empty());
        assert forall|id: UserId| #[trigger] r.granted(id) == Set::<Seq<char>>::empty() by {
            assert(r.granted(id) =~= Set::<Seq<char>>::empty());
        }
        r
    }
}

impl GroupAssignments {
    /// The groups that must exist.
    pub closed spec fn needed(&self) -> Set<Seq<char>> {
        self.global@.union(self.team_groups@)
    }

    /// The groups that a user has from the teams they are in.
    spec fn from_teams(&self, id: UserId) -> Set<Seq<char>> {
        if self.per_user@.contains_key(id) {
            self.per_user@[id]@
        } else {
            Set::empty()
        }
    }

    /// The groups that a user is to be in.
    pub closed spec fn granted(&self, id: UserId) -> Set<Seq<char>> {
        self.global@.union(self.from_teams(id))
    }

    /// Puts each of the users into a group.
    fn add_team(&mut self, members: &Vec<UserId>, group: &String)
        ensures
            final(self).global@ == old(self).global@,
            final(self).team_groups@ == old(self).team_groups@.insert(group@),
            forall|id: UserId| #[trigger]
                final(self).from_teams(id) == if members@.contains(id) {
                    old(self).from_teams(id).insert(group@)
                } else {
                    old(self).from_teams(id)
                },
    {
        self.team_groups.insert(group.clone());
        let mut i: usize = 0;
        while i < members.len()
            invariant
                i <= members@.len(),
                self.global@ == old(self).global@,
                self.team_groups@ == old(self).team_groups@.insert(group@),
                forall|id: UserId| #[trigger]
                    self.from_teams(id) == if members@.take(i as int).contains(id) {
                        old(self).from_teams(id).insert(group@)
                    } else {
                        old(self).from_teams(id)
                    },
            decreases members@.len() - i,
        {
            broadcast use vstd::std_specs::hash::group_hash_axioms;

            let ghost before = *self;
            let id = members[i];
            let mut groups = match self.per_user.remove(&id) {
                Some(groups) => groups,
                None => NameSet::new(),
            };
            groups.insert(group.clone());
            self.per_user.insert(id, groups);
            proof {
                let seen = members@.take(i as int);
                let next = members@.take(i + 1);
                assert(next == seen.push(id));
                crate::listing::lemma_contains_pushed(seen, id);
                assert forall|k: UserId| #[trigger] self.from_teams(k) == if next.contains(k) {
                    old(self).from_teams(k).insert(group@)
                } else {
                    old(self).from_teams(k)
                } by {
                    if k == id {
                        assert(self.from_teams(k) =~= before.from_teams(k).insert(group@));
                        assert(old(self).from_teams(k).insert(group@).insert(group@)
                            =~= old(self).from_teams(k).insert(group@));
                    } else {
                        assert(self.from_teams(k) == before.from_teams(k));
                    }
                }
            }
            i = i + 1;
        }
        assert(members@.take(members@.len() as int) == members@);
    }

    /// Resolve mappings, given the members of the mapped teams that exist. A mapping whose team
    /// does not exist neither creates the Linux group nor assigns it to anybody.
    pub fn from_mappings(mappings: &Vec<GroupMapping>, team_members: &TeamMembers) -> (r: Self)
        ensures
            r.needed() == needed_groups(mappings_of(mappings@), team_members@),
            forall|id: UserId| #[trigger]
                r.granted(id) == granted_groups(mappings_of(mappings@), team_members@, id),
    {
        let ghost views = mappings_of(mappings@);
        let ghost teams = team_members@;
        let mut r: GroupAssignments = GroupAssignments::default();
        let mut i: usize = 0;
        proof {
            assert(r.needed() =~= needed_groups(views.take(0), teams));
            assert forall|id: UserId| #[trigger] r.granted(id) == granted_groups(
                views.take(0),
                teams,
                id,
            ) by {
                assert(r.granted(id) =~= granted_groups(views.take(0), teams, id));
            }
        }
        while i < mappings.len()
            invariant
                i <= mappings@.len(),
                views == mappings_of(mappings@),
                teams == team_members@,
                r.needed() == needed_groups(views.take(i as int), teams),
                forall|id: UserId| #[trigger]
                    r.granted(id) == granted_groups(views.take(i as int), teams, id),
            decreases mappings@.len() - i,
        {
            let ghost before = r;
            let ghost mapping = views[i as int];
            assert(mapping == mappings@[i as int]@);
            match &mappings[i] {
                GroupMapping::AddGroup(group) => {
                    r.global.insert(group.clone());
                },
                GroupMapping::MapGitHubTeam { gh_team, linux_group } => {
                    if let Some(members) = team_members.get(gh_team.as_str()) {
                        r.add_team(members, linux_group);
                    }
                },
            }
            proof {
                lemma_needed_with_next(views, teams, i as int);
                assert(r.needed() =~= needed_groups(views.take(i + 1), teams)) by {
                    assert forall|g: Seq<char>| r.needed().contains(g) == (before.needed().contains(
                        g,
                    ) || needs(mapping, teams, g)) by {}
                }
                assert forall|id: UserId| #[trigger] r.granted(id) == granted_groups(
                    views.take(i + 1),
                    teams,
                    id,
                ) by {
                    lemma_granted_with_next(views, teams, i as int, id);
                    assert(before.granted(id) == granted_groups(views.take(i as int), teams, id));
                    assert forall|g: Seq<char>| r.granted(id).contains(g) == (before.granted(
                        id,
                    ).contains(g) || grants(mapping, teams, id, g)) by {
                        assert(r.granted(id) == r.global@.union(r.from_teams(id)));
                    }
                    assert(r.granted(id) =~= granted_groups(views.take(i + 1), teams, id));
                }
            }
            i = i + 1;
        }
        assert(views.take(views.len() as int) == views);
        r
    }

    /// All groups that must exist on the system before users are processed, in order.
    pub fn all_groups(&self) -> (r: Vec<String>)
        ensures
            lists(texts(r@), self.needed()),
    {
        let mut groups = NameSet::new();
        add_all(&mut groups, &self.global);
        add_all(&mut groups, &self.team_groups);
        assert(groups@ =~= self.needed());
        groups.to_list()
    }

    /// The supplementary groups for a single user, in order. These are the global groups plus the
    /// groups of the GitHub teams the user is a member of.
    pub fn user_groups(&self, id: UserId) -> (r: Vec<String>)
        ensures
            lists(texts(r@), self.granted(id)),
    {
        broadcast use vstd::std_specs::hash::group_hash_axioms;

        let mut groups = NameSet::new();
        add_all(&mut groups, &self.global);
        if let Some(team_groups) = self.per_user.get(&id) {
            add_all(&mut groups, team_groups);
        }
        assert(groups@ =~= self.granted(id));
        groups.to_list()
    }
}

/// Adds the names of one set to another.
fn add_all(groups: &mut NameSet, more: &NameSet)
    ensures
        final(groups)@ == old(groups)@.union(more@),
{
    let list = more.to_list();
    let ghost names = texts(list@);
    let mut i: usize = 0;
    assert(groups@ =~= old(groups)@.union(names.take(0).to_set()));
    while i < list.len()
        invariant
            i <= list@.len(),
            names == texts(list@),
            groups@ == old(groups)@.union(names.take(i as int).to_set()),
        decreases list@.len() - i,
    {
        groups.insert(list[i].clone());
        proof {
            assert(names.take(i + 1) == names.take(i as int).push(names[i as int]));
            lemma_push_to_set(names.take(i as int), names[i as int]);
            assert(names[i as int] == list@[i as int]@);
            assert(groups@ =~= old(groups)@.union(names.take(i + 1).to_set()));
        }
        i = i + 1;
    }
    assert(names.take(names.len() as int) == names);
}

/// The groups that must exist with one more mapping.
proof fn lemma_needed_with_next(
    views: Seq<MappingView>,
    teams: Map<Seq<char>, Seq<UserId>>,
    i: int,
)
    requires
        0 <= i < views.len(),
    ensures
        forall|g: Seq<char>|
            needed_groups(views.take(i + 1), teams).contains(g) == (needed_groups(
                views.take(i),
                teams,
            ).contains(g) || needs(views[i], teams, g)),
{
    let seen = views.take(i);
    let next = views.take(i + 1);
    assert forall|g: Seq<char>| needed_groups(next, teams).contains(g) == (needed_groups(
        seen,
        teams,
    ).contains(g) || needs(views[i], teams, g)) by {
        if needed_groups(seen, teams).contains(g) {
            let k = choose|k: int| 0 <= k < seen.len() && needs(#[trigger] seen[k], teams, g);
            assert(needs(next[k], teams, g));
        }
        if needs(views[i], teams, g) {
            assert(needs(next[i], teams, g));
        }
        if needed_groups(next, teams).contains(g) {
            let k = choose|k: int| 0 <= k < next.len() && needs(#[trigger] next[k], teams, g);
            if k < i {
                assert(needs(seen[k], teams, g));
            }
        }
    }
}

/// The groups that a user is to be in with one more mapping.
proof fn lemma_granted_with_next(
    views: Seq<MappingView>,
    teams: Map<Seq<char>, Seq<UserId>>,
    i: int,
    id: UserId,
)
    requires
        0 <= i < views.len(),
    ensures
        forall|g: Seq<char>|
            granted_groups(views.take(i + 1), teams, id).contains(g) == (granted_groups(
                views.take(i),
                teams,
                id,
            ).contains(g) || grants(views[i], teams, id, g)),
{
    let seen = views.take(i);
    let next = views.take(i + 1);
    assert forall|g: Seq<char>| granted_groups(next, teams, id).contains(g) == (granted_groups(
        seen,
        teams,
        id,
    ).contains(g) || grants(views[i], teams, id, g)) by {
        if granted_groups(seen, teams, id).contains(g) {
            let k = choose|k: int| 0 <= k < seen.len() && grants(#[trigger] seen[k], teams, id, g);
            assert(grants(next[k], teams, id, g));
        }
        if grants(views[i], teams, id, g) {
            assert(grants(next[i], teams, id, g));
        }
        if granted_groups(next, teams, id).contains(g) {
            let k = choose|k: int| 0 <= k < next.len() && grants(#[trigger] next[k], teams, id, g);
            if k < i {
                assert(grants(seen[k], teams, id, g));
            }
        }
    }
}

/// Every group that a user is to be in is one that must exist, so it is created before users are
/// processed.
pub proof fn granted_groups_are_needed(
    mappings: Seq<MappingView>,
    teams: Map<Seq<char>, Seq<UserId>>,
    id: UserId,
)
    ensures
        granted_groups(mappings, teams, id).subset_of(needed_groups(mappings, teams)),
{
    assert forall|g: Seq<char>| granted_groups(mappings, teams, id).contains(
        g,
    ) implies needed_groups(mappings, teams).contains(g) by {
        let k = choose|k: int|
            0 <= k < mappings.len() && grants(#[trigger] mappings[k], teams, id, g);
        assert(needs(mappings[k], teams, g));
    }
}

/// A mapping whose team does not exist makes no difference to anybody.
pub proof fn missing_team_makes_no_difference(
    before: Seq<MappingView>,
    gh_team: Seq<char>,
    linux_group: Seq<char>,
    after: Seq<MappingView>,
    teams: Map<Seq<char>, Seq<UserId>>,
    id: UserId,
)
    requires
        !teams.contains_key(gh_team),
    ensures
        needed_groups(
            before + seq![MappingView::MapGitHubTeam { gh_team, linux_group }] + after,
            teams,
        ) == needed_groups(before + after, teams),
        granted_groups(
            before + seq![MappingView::MapGitHubTeam { gh_team, linux_group }] + after,
            teams,
            id,
        ) == granted_groups(before + after, teams, id),
{
    let short = before + after;
    let long = before + seq![MappingView::MapGitHubTeam { gh_team, linux_group }] + after;
    let n = before.len() as int;
    assert forall|g: Seq<char>| needed_groups(long, teams).contains(g) == needed_groups(
        short,
        teams,
    ).contains(g) by {
        if needed_groups(long, teams).contains(g) {
            let k = choose|k: int| 0 <= k < long.len() && needs(#[trigger] long[k], teams, g);
            assert(k != n);
            let j = if k < n {
                k
            } else {
                k - 1
            };
            assert(needs(short[j], teams, g));
        }
        if needed_groups(short, teams).contains(g) {
            let k = choose|k: int| 0 <= k < short.len() && needs(#[trigger] short[k], teams, g);
            let j = if k < n {
                k
            } else {
                k + 1
            };
            assert(needs(long[j], teams, g));
        }
    }
    assert(needed_groups(long, teams) =~= needed_groups(short, teams));
    assert forall|g: Seq<char>| granted_groups(long, teams, id).contains(g) == granted_groups(
        short,
        teams,
        id,
    ).contains(g) by {
        if granted_groups(long, teams, id).contains(g) {
            let k = choose|k: int| 0 <= k < long.len() && grants(#[trigger] long[k], teams, id, g);
            assert(k != n);
            let j = if k < n {
                k
            } else {
                k - 1
            };
            assert(grants(short[j], teams, id, g));
        }
        if granted_groups(short, teams, id).contains(g) {
            let k = choose|k: int|
                0 <= k < short.len() && grants(#[trigger] short[k], teams, id, g);
            let j = if k < n {
                k
            } else {
                k + 1
            };
            assert(grants(long[j], teams, id, g));
        }
    }
    assert(granted_groups(long, teams, id) =~= granted_groups(short, teams, id));
}

/// Whether a mapping is one of the given team.
pub open spec fn maps_team(mapping: MappingView, slug: Seq<char>) -> bool {
    mapping matches MappingView::MapGitHubTeam { gh_team, .. } && gh_team == slug
}

/// The slugs of the teams that are mapped.
pub open spec fn mapped_teams(mappings: Seq<MappingView>) -> Set<Seq<char>> {
    Set::new(
        |slug: Seq<char>|
            exists|i: int| 0 <= i < mappings.len() && maps_team(#[trigger] mappings[i], slug),
    )
}

/// The slugs of the teams that are mapped. Without any, the org's teams need not be listed.
pub fn mapped_slugs(mappings: &Vec<GroupMapping>) -> (r: NameSet)
    ensures
        r@ == mapped_teams(mappings_of(mappings@)),
{
    let ghost views = mappings_of(mappings@);
    let mut r = NameSet::new();
    let mut i: usize = 0;
    assert(r@ =~= mapped_teams(views.take(0)));
    while i < mappings.len()
        invariant
            i <= mappings@.len(),
            views == mappings_of(mappings@),
            r@ == mapped_teams(views.take(i as int)),
        decreases mappings@.len() - i,
    {
        let ghost before = r@;
        assert(views[i as int] == mappings@[i as int]@);
        if let GroupMapping::MapGitHubTeam { gh_team, linux_group: _ } = &mappings[i] {
            r.insert(gh_team.clone());
        }
        proof {
            let seen = views.take(i as int);
            let next = views.take(i + 1);
            assert forall|slug: Seq<char>| mapped_teams(next).contains(slug) == r@.contains(
                slug,
            ) by {
                if before.contains(slug) {
                    let k = choose|k: int|
                        0 <= k < seen.len() && maps_team(#[trigger] seen[k], slug);
                    assert(maps_team(next[k], slug));
                }
                if maps_team(views[i as int], slug) {
                    assert(maps_team(next[i as int], slug));
                }
                if mapped_teams(next).contains(slug) {
                    let k = choose|k: int|
                        0 <= k < next.len() && maps_team(#[trigger] next[k], slug);
                    if k < i {
                        assert(maps_team(seen[k], slug));
                    }
                }
            }
            assert(r@ =~= mapped_teams(next));
        }
        i = i + 1;
    }
    assert(views.take(views.len() as int) == views);
    r
}

/// The mapped teams whose members are to be fetched: those that exist in the org, in order.
pub fn teams_to_fetch(mapped: &NameSet, existing: &NameSet) -> (r: Vec<String>)
    ensures
        lists(texts(r@), mapped@.intersect(existing@)),
{
    let list = mapped.to_list();
    let ghost names = texts(list@);
    let mut r = NameSet::new();
    let mut i: usize = 0;
    assert(r@ =~= names.take(0).to_set().intersect(existing@));
    while i < list.len()
        invariant
            i <= list@.len(),
            names == texts(list@),
            r@ == names.take(i as int).to_set().intersect(existing@),
        decreases list@.len() - i,
    {
        let ghost before = r@;
        proof {
            assert(names.take(i + 1) == names.take(i as int).push(names[i as int]));
            lemma_push_to_set(names.take(i as int), names[i as int]);
            assert(names[i as int] == list@[i as int]@);
        }
        if existing.contains(list[i].as_str()) {
            r.insert(list[i].clone());
        }
        assert(r@ =~= names.take(i + 1).to_set().intersect(existing@));
        i = i + 1;
    }
    assert(names.take(names.len() as int) == names);
    r.to_list()
}

/// A team slug and a portable group name with a colon between them are read as the mapping of that
/// team to that group, also where both are the same text.
pub proof fn team_mappings_are_read_back(
    s: &str,
    team: Seq<char>,
    group: Seq<char>,
    r: Result<GroupMapping, InvalidMapping>,
)
    requires
        call_ensures(GroupMapping::from_str, (s,), r),
        s@ == team + seq![':'] + group,
        0 < team.len(),
        forall|i: int|
            0 <= i < team.len() ==> 'a' <= #[trigger] team[i] <= 'z' || '0' <= team[i] <= '9' || team[i] == '_'
                || team[i] == '-',
        0 < group.len(),
        forall|i: int|
            0 <= i < group.len() ==> 'a' <= #[trigger] group[i] <= 'z' || '0' <= group[i] <= '9' || group[i] == '_'
                || group[i] == '-',
        group.len() <= 32,
        'a' <= group[0] <= 'z' || group[0] == '_',
        group.last() != '-',
    ensures
        r is Ok,
        r->Ok_0 is MapGitHubTeam,
        r->Ok_0->gh_team@ == team,
        r->Ok_0->linux_group@ == group,
{
    assert forall|i: int| 0 <= i < team.len() implies s@[i] != ':' by {
        assert(s@[i] == team[i]);
    }
    assert(s@[team.len() as int] == ':');
    lemma_colon_at(s@, team.len() as int);
    assert(s@.take(team.len() as int) == team);
    assert(s@.skip((team.len() + 1) as int) == group);
    assert(has_name_charset(team));
    assert(is_portable_group_name(group));
}

/// A portable group name alone is read as a group for everybody.
pub proof fn global_groups_are_read_back(s: &str, r: Result<GroupMapping, InvalidMapping>)
    requires
        call_ensures(GroupMapping::from_str, (s,), r),
        0 < s@.len(),
        forall|i: int|
            0 <= i < s@.len() ==> 'a' <= #[trigger] s@[i] <= 'z' || '0' <= s@[i] <= '9' || s@[i] == '_'
                || s@[i] == '-',
        s@.len() <= 32,
        'a' <= s@[0] <= 'z' || s@[0] == '_',
        s@.last() != '-',
    ensures
        r is Ok,
        r->Ok_0 is AddGroup,
        r->Ok_0->AddGroup_0@ == s@,
{
    lemma_colon_at(s@, s@.len() as int);
    assert(is_portable_group_name(s@));
}

/// An argument is read as a group for everybody only if it holds no colon, and as a team mapping
/// only if the slug and the group are what stands before and behind its first colon. What is read
/// has the characters and the length that are allowed.
pub proof fn read_mappings_are_what_was_written(s: &str, r: Result<GroupMapping, InvalidMapping>)
    requires
        call_ensures(GroupMapping::from_str, (s,), r),
    ensures
        r matches Ok(GroupMapping::AddGroup(group)) ==> group@ == s@ && !s@.contains(':'),
        r matches Ok(GroupMapping::MapGitHubTeam { gh_team, linux_group }) ==> {
            &&& s@ == gh_team@ + seq![':'] + linux_group@
            &&& !gh_team@.contains(':')
            &&& 0 < gh_team@.len()
            &&& forall|i: int|
                0 <= i < gh_team@.len() ==> 'a' <= #[trigger] gh_team@[i] <= 'z' || '0'
                    <= gh_team@[i] <= '9' || gh_team@[i] == '_' || gh_team@[i] == '-'
        },
        r is Ok ==> {
            let group = match r->Ok_0 {
                GroupMapping::AddGroup(group) => group@,
                GroupMapping::MapGitHubTeam { gh_team: _, linux_group } => linux_group@,
            };
            &&& 0 < group.len() <= 32
            &&& 'a' <= group[0] <= 'z' || group[0] == '_'
            &&& group.last() != '-'
            &&& forall|i: int|
                0 <= i < group.len() ==> 'a' <= #[trigger] group[i] <= 'z' || '0' <= group[i] <= '9'
                    || group[i] == '_' || group[i] == '-'
        },
{
    let n = colon_at(s@);
    lemma_first_colon(s@);
    if n < s@.len() {
        assert(s@ == s@.take(n) + seq![':'] + s@.skip(n + 1));
    }
}

/// Where the first colon of a text is.
proof fn lemma_first_colon(s: Seq<char>)
    ensures
        0 <= colon_at(s) <= s.len(),
        forall|i: int| 0 <= i < colon_at(s) ==> s[i] != ':',
        colon_at(s) < s.len() ==> s[colon_at(s)] == ':',
    decreases s.len(),
{
    if s.len() > 0 && s[0] != ':' {
        let rest = s.drop_first();
        lemma_first_colon(rest);
        assert forall|i: int| 0 <= i < colon_at(s) implies s[i] != ':' by {
            if i > 0 {
                assert(s[i] == rest[i - 1]);
            }
        }
    }
}

/// A bad argument is refused with the part that is bad: the slug before the first colon, or else
/// the group.
pub proof fn refusals_name_the_bad_part(s: &str, r: Result<GroupMapping, InvalidMapping>)
    requires
        call_ensures(GroupMapping::from_str, (s,), r),
    ensures
        r matches Err(InvalidMapping::Slug(slug)) ==> !slug@.contains(':') && exists|
            rest: Seq<char>,
        | s@ == #[trigger] (slug@ + seq![':'] + rest),
        r matches Err(InvalidMapping::Group(group)) ==> group@ == s@ && !s@.contains(':') || exists|
            team: Seq<char>,
        | s@ == #[trigger] (team + seq![':'] + group@),
{
    let n = colon_at(s@);
    lemma_first_colon(s@);
    if n < s@.len() {
        assert(s@ == s@.take(n) + seq![':'] + s@.skip(n + 1));
    }
}

/// A team slug is accepted unchanged if and only if it is not empty and made of lowercase letters,
/// digits, `_` and `-`.
pub proof fn slugs_are_checked(slug: &str, r: Result<String, InvalidMapping>)
    requires
        call_ensures(validate_team_slug, (slug,), r),
    ensures
        r is Ok <==> 0 < slug@.len() && forall|i: int|
            0 <= i < slug@.len() ==> 'a' <= #[trigger] slug@[i] <= 'z' || '0' <= slug@[i] <= '9'
                || slug@[i] == '_' || slug@[i] == '-',
        r is Ok ==> r->Ok_0@ == slug@,
{
}

/// A group name is accepted unchanged if and only if it matches `[a-z_][a-z0-9_-]*`, does not end
/// with `-` and has at most 32 characters.
pub proof fn portable_names_are_checked(group: &str, r: Result<String, InvalidMapping>)
    requires
        call_ensures(validate_group_name, (group,), r),
    ensures
        r is Ok <==> {
            &&& 0 < group@.len() <= 32
            &&& 'a' <= group@[0] <= 'z' || group@[0] == '_'
            &&& group@.last() != '-'
            &&& forall|i: int|
                0 <= i < group@.len() ==> 'a' <= #[trigger] group@[i] <= 'z' || '0' <= group@[i]
                    <= '9' || group@[i] == '_' || group@[i] == '-'
        },
        r is Ok ==> r->Ok_0@ == group@,
{
}

/// A user is put into a group if and only if an argument names it for everybody, or maps to it a
/// team that exists and that the user is in. The groups come in order, each once.
pub proof fn users_get_the_groups_they_are_mapped_to(
    mappings: &Vec<GroupMapping>,
    teams: &TeamMembers,
    assignments: &GroupAssignments,
    id: UserId,
    list: Vec<String>,
    group: Seq<char>,
)
    requires
        call_ensures(GroupAssignments::from_mappings, (mappings, teams), *assignments),
        call_ensures(GroupAssignments::user_groups, (assignments, id), list),
    ensures
        (exists|j: int| 0 <= j < list@.len() && (#[trigger] list@[j])@ == group) <==> (exists|i: int|
            #![trigger mappings@[i]]
            0 <= i < mappings@.len() && match mappings@[i] {
                GroupMapping::AddGroup(name) => name@ == group,
                GroupMapping::MapGitHubTeam { gh_team, linux_group } => linux_group@ == group
                    && teams@.contains_key(gh_team@) && teams@[gh_team@].contains(id),
            }),
        forall|i: int, j: int|
            0 <= i < j < list@.len() ==> (#[trigger] list@[i])@ != (#[trigger] list@[j])@,
{
    let names = texts(list@);
    let views = mappings_of(mappings@);
    assert(names.to_set() == granted_groups(views, teams@, id));
    assert(names.contains(group) == granted_groups(views, teams@, id).contains(group));
    if exists|j: int| 0 <= j < list@.len() && (#[trigger] list@[j])@ == group {
        let j = choose|j: int| 0 <= j < list@.len() && (#[trigger] list@[j])@ == group;
        assert(names[j] == group);
        let i = choose|i: int| 0 <= i < views.len() && grants(#[trigger] views[i], teams@, id, group);
        assert(views[i] == mappings@[i]@);
    }
    if exists|i: int|
        #![trigger mappings@[i]]
        0 <= i < mappings@.len() && match mappings@[i] {
            GroupMapping::AddGroup(name) => name@ == group,
            GroupMapping::MapGitHubTeam { gh_team, linux_group } => linux_group@ == group
                && teams@.contains_key(gh_team@) && teams@[gh_team@].contains(id),
        } {
        let i = choose|i: int|
            #![trigger mappings@[i]]
            0 <= i < mappings@.len() && match mappings@[i] {
                GroupMapping::AddGroup(name) => name@ == group,
                GroupMapping::MapGitHubTeam { gh_team, linux_group } => linux_group@ == group
                    && teams@.contains_key(gh_team@) && teams@[gh_team@].contains(id),
            };
        assert(grants(views[i], teams@, id, group));
        assert(names.contains(group));
        let j = names.index_of(group);
        assert(list@[j]@ == group);
    }
    assert forall|i: int, j: int| 0 <= i < j < list@.len() implies (#[trigger] list@[i])@ != (
    #[trigger] list@[j])@ by {
        assert(names[i] == list@[i]@ && names[j] == list@[j]@);
    }
}

/// A group must exist if and only if an argument names it for everybody, or maps to it a team that
/// exists, be it with or without members.
pub proof fn mapped_groups_must_exist(
    mappings: &Vec<GroupMapping>,
    teams: &TeamMembers,
    assignments: &GroupAssignments,
    list: Vec<String>,
    group: Seq<char>,
)
    requires
        call_ensures(GroupAssignments::from_mappings, (mappings, teams), *assignments),
        call_ensures(GroupAssignments::all_groups, (assignments,), list),
    ensures
        (exists|j: int| 0 <= j < list@.len() && (#[trigger] list@[j])@ == group) <==> (exists|i: int|
            #![trigger mappings@[i]]
            0 <= i < mappings@.len() && match mappings@[i] {
                GroupMapping::AddGroup(name) => name@ == group,
                GroupMapping::MapGitHubTeam { gh_team, linux_group } => linux_group@ == group
                    && teams@.contains_key(gh_team@),
            }),
{
    let names = texts(list@);
    let views = mappings_of(mappings@);
    assert(names.to_set() == needed_groups(views, teams@));
    assert(names.contains(group) == needed_groups(views, teams@).contains(group));
    if exists|j: int| 0 <= j < list@.len() && (#[trigger] list@[j])@ == group {
        let j = choose|j: int| 0 <= j < list@.len() && (#[trigger] list@[j])@ == group;
        assert(names[j] == group);
        let i = choose|i: int| 0 <= i < views.len() && needs(#[trigger] views[i], teams@, group);
        assert(views[i] == mappings@[i]@);
    }
    if exists|i: int|
        #![trigger mappings@[i]]
        0 <= i < mappings@.len() && match mappings@[i] {
            GroupMapping::AddGroup(name) => name@ == group,
            GroupMapping::MapGitHubTeam { gh_team, linux_group } => linux_group@ == group
                && teams@.contains_key(gh_team@),
        } {
        let i = choose|i: int|
            #![trigger mappings@[i]]
            0 <= i < mappings@.len() && match mappings@[i] {
                GroupMapping::AddGroup(name) => name@ == group,
                GroupMapping::MapGitHubTeam { gh_team, linux_group } => linux_group@ == group
                    && teams@.contains_key(gh_team@),
            };
        assert(needs(views[i], teams@, group));
        assert(names.contains(group));
        let j = names.index_of(group);
        assert(list@[j]@ == group);
    }
}

/// The members of a team are fetched if and only if an argument maps it and the org has it.
pub proof fn mapped_teams_of_the_org_are_fetched(
    mappings: &Vec<GroupMapping>,
    mapped: &NameSet,
    existing: &NameSet,
    list: Vec<String>,
    slug: Seq<char>,
)
    requires
        call_ensures(mapped_slugs, (mappings,), *mapped),
        call_ensures(teams_to_fetch, (mapped, existing), list),
    ensures
        (exists|j: int| 0 <= j < list@.len() && (#[trigger] list@[j])@ == slug) <==> existing@.contains(
            slug,
        ) && exists|i: int|
           0 <= i < mappings@.len() && (#[trigger] mappings@[i]) is MapGitHubTeam
                && mappings@[i]->gh_team@ == slug,
{
    let names = texts(list@);
    let views = mappings_of(mappings@);
    assert(names.to_set() == mapped@.intersect(existing@));
    assert(names.to_set().contains(slug) == (mapped@.contains(slug) && existing@.contains(slug)));
    if exists|j: int| 0 <= j < list@.len() && (#[trigger] list@[j])@ == slug {
        let j = choose|j: int| 0 <= j < list@.len() && (#[trigger] list@[j])@ == slug;
        assert(names[j] == slug);
        let i = choose|i: int| 0 <= i < views.len() && maps_team(#[trigger] views[i], slug);
        assert(views[i] == mappings@[i]@);
    }
    if existing@.contains(slug) && exists|i: int|
       0 <= i < mappings@.len() && (#[trigger] mappings@[i]) is MapGitHubTeam
            && mappings@[i]->gh_team@ == slug {
        let i = choose|i: int|
           0 <= i < mappings@.len() && (#[trigger] mappings@[i]) is MapGitHubTeam
                && mappings@[i]->gh_team@ == slug;
        assert(maps_team(views[i], slug));
        assert(names.contains(slug));
        let j = names.index_of(slug);
        assert(list@[j]@ == slug);
    }
}

/// The members of a team are those that it was added with last. Other teams stay as they are.
pub proof fn teams_are_found_by_their_slug(
    teams: &mut TeamMembers,
    slug: String,
    members: Vec<UserId>,
    later: &TeamMembers,
    wanted: &str,
    found: Option<&Vec<UserId>>,
)
    requires
        call_ensures(TeamMembers::insert, (teams, slug, members), ()),
        later@ == final(teams)@,
        call_ensures(TeamMembers::get, (later, wanted), found),
    ensures
        wanted@ == slug@ ==> found is Some && found->0@ == members@,
        wanted@ != slug@ ==> (found is Some <==> old(teams)@.contains_key(wanted@)),
        wanted@ != slug@ && found is Some ==> found->0@ == old(teams)@[wanted@],
{
}

} // verus!
