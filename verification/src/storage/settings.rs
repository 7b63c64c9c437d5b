//! Per-chat settings: workspaces, and the tools that need no approval.
use vstd::prelude::*;
use vstd::string::*;

use crate::storage::{ChatSettings, Database};
use crate::text::same;

verus! {

/// A tool that a chat granted "always allow".
#[derive(Debug)]
pub struct GrantRow {
    pub telegram_chat_id: i64,
    pub tool_name: String,
}

/// A chat has at most one workspace, and a grant is stored once.
pub open spec fn settings_wf(settings: ChatSettings) -> bool {
    &&& settings.workspaces.wf()
    &&& forall|i: int, j: int|
        0 <= i < j < settings.grants@.len() ==> !same_grant(
            #[trigger] settings.grants@[i],
            #[trigger] settings.grants@[j],
        )
}

pub open spec fn same_grant(a: GrantRow, b: GrantRow) -> bool {
    a.telegram_chat_id == b.telegram_chat_id && a.tool_name@ == b.tool_name@
}

/// The grants: which tools each chat allows without asking.
pub open spec fn grants(rows: Seq<GrantRow>) -> Set<(i64, Seq<char>)> {
    Set::new(|grant: (i64, Seq<char>)| granted(rows, grant.0, grant.1))
}

pub open spec fn granted(rows: Seq<GrantRow>, chat: i64, tool: Seq<char>) -> bool {
    exists|i: int| 0 <= i < rows.len() && #[trigger] is_grant(rows[i], chat, tool)
}

/// The grants once a chat has allowed one more tool.
pub open spec fn allowed_also(
    granted: Set<(i64, Seq<char>)>,
    chat: i64,
    tool: Seq<char>,
) -> Set<(i64, Seq<char>)> {
    granted.insert((chat, tool))
}

/// The grants once a chat has taken back its own.
pub open spec fn revoked(granted: Set<(i64, Seq<char>)>, chat: i64) -> Set<(i64, Seq<char>)> {
    granted.filter(|grant: (i64, Seq<char>)| grant.0 != chat)
}

pub open spec fn is_grant(row: GrantRow, chat: i64, tool: Seq<char>) -> bool {
    row.telegram_chat_id == chat && row.tool_name@ == tool
}

impl Database {
    pub open spec fn allowed_tools(&self) -> Set<(i64, Seq<char>)> {
        grants(self.settings.grants@)
    }

    /// The workspace that the chat chose, if it chose one.
    pub fn workspace_for_chat(&self, chat_id: i64) -> (r: Option<String>)
        requires
            self.wf(),
        ensures
            match r {
                Some(workspace) => self.settings.workspaces@.contains_key(chat_id)
                    && workspace@ == self.settings.workspaces@[chat_id],
                None => !self.settings.workspaces@.contains_key(chat_id),
            },
    {
        self.settings.workspaces.get(chat_id)
    }

    /// Chooses the chat's workspace, in place of one chosen before.
    pub fn set_workspace_for_chat(&mut self, chat_id: i64, workspace: &str)
        requires
            old(self).wf(),
        ensures
            final(self).wf(),
            *final(self) == (Database {
                settings: ChatSettings {
                    workspaces: final(self).settings.workspaces,
                    ..old(self).settings
                },
                ..*old(self)
            }),
            final(self).settings.workspaces@ == old(self).settings.workspaces@.insert(
                chat_id,
                workspace@,
            ),
    {
        self.settings.workspaces.set(chat_id, workspace);
    }

    /// Goes back to the configured workspace. Returns whether the chat had chosen one.
    pub fn clear_workspace_for_chat(&mut self, chat_id: i64) -> (r: bool)
        requires
            old(self).wf(),
        ensures
            final(self).wf(),
            *final(self) == (Database {
                settings: ChatSettings {
                    workspaces: final(self).settings.workspaces,
                    ..old(self).settings
                },
                ..*old(self)
            }),
            r == old(self).settings.workspaces@.contains_key(chat_id),
            final(self).settings.workspaces@ == old(self).settings.workspaces@.remove(chat_id),
    {
        self.settings.workspaces.remove(chat_id)
    }

    /// Whether `tool_name` was granted "always allow" for `chat_id` (see `always_allow_tool`).
    pub fn is_tool_always_allowed(&self, chat_id: i64, tool_name: &str) -> (r: bool)
        ensures
            r == self.allowed_tools().contains((chat_id, tool_name@)),
    {
        let ghost rows = self.settings.grants@;
        let mut i: usize = 0;
        while i < self.settings.grants.len()
            invariant
                i <= self.settings.grants@.len(),
                rows == self.settings.grants@,
                forall|k: int|
                    0 <= k < i ==> !is_grant(#[trigger] rows[k], chat_id, tool_name@),
            decreases self.settings.grants@.len() - i,
        {
            if self.settings.grants[i].telegram_chat_id == chat_id && same(
                self.settings.grants[i].tool_name.as_str(),
                tool_name,
            ) {
                assert(is_grant(rows[i as int], chat_id, tool_name@));
                assert(granted(rows, chat_id, tool_name@));
                return true;
            }
            i = i + 1;
        }
        assert(!granted(rows, chat_id, tool_name@));
        false
    }

    /// Grants "always allow" for `tool_name` in `chat_id`: every future call to that tool in this
    /// chat skips the approval prompt until `clear_always_allowed` (called by `/new`).
    pub fn always_allow_tool(&mut self, chat_id: i64, tool_name: &str)
        requires
            old(self).wf(),
        ensures
            final(self).wf(),
            *final(self) == (Database {
                settings: ChatSettings {
                    grants: final(self).settings.grants,
                    ..old(self).settings
                },
                ..*old(self)
            }),
            final(self).allowed_tools() == allowed_also(
                old(self).allowed_tools(),
                chat_id,
                tool_name@,
            ),
    {
        let ghost before = self.settings.grants@;
        if self.is_tool_always_allowed(chat_id, tool_name) {
            assert(self.allowed_tools().insert((chat_id, tool_name@)) =~= self.allowed_tools());
            return ;
        }
        self.settings.grants.push(
            GrantRow { telegram_chat_id: chat_id, tool_name: tool_name.to_owned() },
        );
        let ghost rows = self.settings.grants@;
        proof {
            assert forall|i: int, j: int| 0 <= i < j < rows.len() implies !same_grant(
                #[trigger] rows[i],
                #[trigger] rows[j],
            ) by {
                if j == before.len() {
                    assert(!granted(before, chat_id, tool_name@));
                    assert(!is_grant(before[i], chat_id, tool_name@));
                } else {
                    assert(!same_grant(before[i], before[j]));
                }
            }
            let goal = grants(before).insert((chat_id, tool_name@));
            assert forall|grant: (i64, Seq<char>)| #[trigger]
                grants(rows).contains(grant) == goal.contains(grant) by {
                if grants(rows).contains(grant) {
                    let i = choose|i: int|
                        0 <= i < rows.len() && #[trigger] is_grant(rows[i], grant.0, grant.1);
                    if i < before.len() {
                        assert(is_grant(before[i], grant.0, grant.1));
                    }
                }
                if grants(before).contains(grant) {
                    let i = choose|i: int|
                        0 <= i < before.len() && #[trigger] is_grant(before[i], grant.0, grant.1);
                    assert(is_grant(rows[i], grant.0, grant.1));
                }
                assert(is_grant(rows[before.len() as int], chat_id, tool_name@));
            }
            assert(grants(rows) =~= goal);
        }
    }

    /// Revokes every "always allow" grant for `chat_id` (called by `/new`, so a fresh conversation
    /// starts with the normal per-call approval prompts again).
    pub fn clear_always_allowed(&mut self, chat_id: i64)
        requires
            old(self).wf(),
        ensures
            final(self).wf(),
            *final(self) == (Database {
                settings: ChatSettings {
                    grants: final(self).settings.grants,
                    ..old(self).settings
                },
                ..*old(self)
            }),
            final(self).allowed_tools() == revoked(old(self).allowed_tools(), chat_id),
    {
        let ghost before = self.settings.grants@;
        let mut kept: Vec<GrantRow> = Vec::new();
        let mut i: usize = 0;
        while i < self.settings.grants.len()
            invariant
                i <= self.settings.grants@.len(),
                *self == *old(self),
                before == self.settings.grants@,
                settings_wf(self.settings),
                forall|k: int|
                    0 <= k < kept@.len() ==> (#[trigger] kept@[k]).telegram_chat_id != chat_id
                        && exists|j: int| 0 <= j < i && same_grant(kept@[k], #[trigger] before[j]),
                forall|j: int|
                    0 <= j < i && (#[trigger] before[j]).telegram_chat_id != chat_id ==> exists|k: int|
                        0 <= k < kept@.len() && same_grant(#[trigger] kept@[k], before[j]),
                forall|a: int, b: int|
                    0 <= a < b < kept@.len() ==> !same_grant(
                        #[trigger] kept@[a],
                        #[trigger] kept@[b],
                    ),
            decreases self.settings.grants@.len() - i,
        {
            let ghost kept_before = kept@;
            if self.settings.grants[i].telegram_chat_id != chat_id {
                let row = GrantRow {
                    telegram_chat_id: self.settings.grants[i].telegram_chat_id,
                    tool_name: self.settings.grants[i].tool_name.clone(),
                };
                assert(same_grant(row, before[i as int]));
                kept.push(row);
                proof {
                    assert forall|k: int| 0 <= k < kept@.len() implies (
                    #[trigger] kept@[k]).telegram_chat_id != chat_id && exists|j: int|
                        0 <= j < i + 1 && same_grant(kept@[k], #[trigger] before[j]) by {
                        if k < kept_before.len() {
                            assert(kept@[k] == kept_before[k]);
                        } else {
                            assert(same_grant(kept@[k], before[i as int]));
                        }
                    }
                    assert forall|j: int|
                        0 <= j < i + 1 && (#[trigger] before[j]).telegram_chat_id
                            != chat_id implies exists|k: int|
                        0 <= k < kept@.len() && same_grant(#[trigger] kept@[k], before[j]) by {
                        if j < i {
                            let k = choose|k: int|
                                0 <= k < kept_before.len() && same_grant(
                                    #[trigger] kept_before[k],
                                    before[j],
                                );
                            assert(kept@[k] == kept_before[k]);
                        } else {
                            assert(same_grant(kept@[kept_before.len() as int], before[j]));
                        }
                    }
                    assert forall|a: int, b: int| 0 <= a < b < kept@.len() implies !same_grant(
                        #[trigger] kept@[a],
                        #[trigger] kept@[b],
                    ) by {
                        if b < kept_before.len() {
                            assert(!same_grant(kept_before[a], kept_before[b]));
                        } else {
                            let j = choose|j: int|
                                0 <= j < i && same_grant(kept_before[a], #[trigger] before[j]);
                            assert(!same_grant(before[j], before[i as int]));
                        }
                    }
                }
            }
            i = i + 1;
        }
        self.settings.grants = kept;
        let ghost rows = self.settings.grants@;
        proof {
            let goal = revoked(grants(before), chat_id);
            assert forall|grant: (i64, Seq<char>)| #[trigger]
                grants(rows).contains(grant) == goal.contains(grant) by {
                if grants(rows).contains(grant) {
                    let k = choose|k: int|
                        0 <= k < rows.len() && #[trigger] is_grant(rows[k], grant.0, grant.1);
                    let j = choose|j: int|
                        0 <= j < before.len() && same_grant(rows[k], #[trigger] before[j]);
                    assert(is_grant(before[j], grant.0, grant.1));
                }
                if goal.contains(grant) {
                    let j = choose|j: int|
                        0 <= j < before.len() && #[trigger] is_grant(before[j], grant.0, grant.1);
                    let k = choose|k: int|
                        0 <= k < rows.len() && same_grant(#[trigger] rows[k], before[j]);
                    assert(is_grant(rows[k], grant.0, grant.1));
                }
            }
            assert(grants(rows) =~= goal);
        }
    }
}

/// What one chat allows or takes back holds for that chat alone, and taking back undoes allowing.
pub proof fn law_grants_are_a_chats_own(
    granted: Set<(i64, Seq<char>)>,
    chat: i64,
    tool: Seq<char>,
    other: i64,
    any: Seq<char>,
)
    ensures
        allowed_also(granted, chat, tool).contains((chat, tool)),
        (other, any) != (chat, tool) ==> (allowed_also(granted, chat, tool).contains((other, any))
            <==> granted.contains((other, any))),
        !revoked(granted, chat).contains((chat, tool)),
        other != chat ==> (revoked(granted, chat).contains((other, any)) <==> granted.contains(
            (other, any),
        )),
        revoked(allowed_also(granted, chat, tool), chat) == revoked(granted, chat),
{
    assert(revoked(allowed_also(granted, chat, tool), chat) =~= revoked(granted, chat));
}

/// A tool is allowed to a chat exactly where a stored grant names both.
pub proof fn law_stored_grants_are_what_counts(rows: Seq<GrantRow>, row: GrantRow, chat: i64, tool: Seq<char>)
    ensures
        grants(Seq::<GrantRow>::empty()) == Set::<(i64, Seq<char>)>::empty(),
        grants(rows.push(row)).contains((chat, tool)) <==> grants(rows).contains((chat, tool)) || (
        row.telegram_chat_id == chat && row.tool_name@ == tool),
{
    let more = rows.push(row);
    assert(grants(Seq::<GrantRow>::empty()) =~= Set::<(i64, Seq<char>)>::empty());
    if granted(more, chat, tool) {
        let i = choose|i: int| 0 <= i < more.len() && #[trigger] is_grant(more[i], chat, tool);
        if i < rows.len() {
            assert(is_grant(rows[i], chat, tool));
        }
    }
    if granted(rows, chat, tool) {
        let i = choose|i: int| 0 <= i < rows.len() && #[trigger] is_grant(rows[i], chat, tool);
        assert(is_grant(more[i], chat, tool));
    }
    if row.telegram_chat_id == chat && row.tool_name@ == tool {
        assert(is_grant(more[rows.len() as int], chat, tool));
    }
}

} // verus!
