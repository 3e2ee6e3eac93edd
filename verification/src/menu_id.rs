//! Identifiers of the proxy menu entries, and the actions that they stand for.
use crate::percent;
use crate::text;
use vstd::prelude::*;

verus! {

/// What identifies a node entry.
pub const NODE_PREFIX: &'static str = "proxy_node:";

/// What identifies a delay test entry.
pub const DELAY_TEST_PREFIX: &'static str = "proxy_delay_test:";

/// What identifies a group submenu. It stands for no action.
pub const GROUP_PREFIX: &'static str = "proxy_group_";

/// The action behind a click on a proxy menu entry.
#[derive(Debug, Clone, PartialEq, Eq)]
pub enum TrayProxyMenuAction {
    /// Make `proxy` the selected node of `group`.
    SelectNode { group: String, proxy: String },
    /// Measure the delay of every node of `group`.
    TestGroupDelay { group: String },
}

/// A menu action, with its names as character sequences.
pub enum MenuAction {
    SelectNode { group: Seq<char>, proxy: Seq<char> },
    TestGroupDelay { group: Seq<char> },
}

impl View for TrayProxyMenuAction {
    type V = MenuAction;

    open spec fn view(&self) -> MenuAction {
        match *self {
            TrayProxyMenuAction::SelectNode { group, proxy } => MenuAction::SelectNode {
                group: group@,
                proxy: proxy@,
            },
            TrayProxyMenuAction::TestGroupDelay { group } => MenuAction::TestGroupDelay {
                group: group@,
            },
        }
    }
}

/// The identifier of the entry that selects `proxy` in `group`.
pub open spec fn node_id(group: Seq<char>, proxy: Seq<char>) -> Seq<char> {
    NODE_PREFIX@ + percent::encoded(group) + seq![':'] + percent::encoded(proxy)
}

/// The identifier of the entry that tests `group`.
pub open spec fn delay_test_id(group: Seq<char>) -> Seq<char> {
    DELAY_TEST_PREFIX@ + percent::encoded(group)
}

/// The identifier of the submenu of `group`.
pub open spec fn group_id(group: Seq<char>) -> Seq<char> {
    GROUP_PREFIX@ + group
}

/// The action that an identifier stands for.
pub open spec fn action_of(id: Seq<char>) -> Option<MenuAction> {
    if NODE_PREFIX@.is_prefix_of(id) {
        match text::split_first(id.skip(NODE_PREFIX@.len() as int), ':') {
            Some((group, proxy)) => match (percent::decoded(group), percent::decoded(proxy)) {
                (Some(group), Some(proxy)) => Some(MenuAction::SelectNode { group, proxy }),
                _ => None,
            },
            None => None,
        }
    } else if DELAY_TEST_PREFIX@.is_prefix_of(id) {
        match percent::decoded(id.skip(DELAY_TEST_PREFIX@.len() as int)) {
            Some(group) => Some(MenuAction::TestGroupDelay { group }),
            None => None,
        }
    } else {
        None
    }
}

/// Codec of the proxy menu identifiers. Names are percent-encoded, so that no name can be
/// mistaken for a separator.
pub struct TrayProxyMenuId;

impl TrayProxyMenuId {
    /// Builds the identifier of a node entry.
    pub fn node(group: &str, proxy: &str) -> (id: String)
        ensures
            id@ == node_id(group@, proxy@),
    {
        let mut id = NODE_PREFIX.to_owned();
        id.append(percent::encode(group).as_str());
        id.append(":");
        id.append(percent::encode(proxy).as_str());
        proof {
            reveal_strlit(":");
            assert(":"@ =~= seq![':']);
        }
        id
    }

    /// Builds the identifier of the delay test entry of a group.
    pub fn delay_test(group: &str) -> (id: String)
        ensures
            id@ == delay_test_id(group@),
    {
        let mut id = DELAY_TEST_PREFIX.to_owned();
        id.append(percent::encode(group).as_str());
        id
    }

    /// Builds the identifier of a group submenu.
    pub fn group(group: &str) -> (id: String)
        ensures
            id@ == group_id(group@),
    {
        let mut id = GROUP_PREFIX.to_owned();
        id.append(group);
        id
    }

    /// Reads an identifier back into its action. There is one exactly for a node or delay test
    /// identifier whose parts decode.
    pub fn parse(id: &str) -> (action: Option<TrayProxyMenuAction>)
        ensures
            match action {
                Some(action) => action_of(id@) == Some(action@),
                None => action_of(id@) is None,
            },
    {
        match text::strip_prefix(id, NODE_PREFIX) {
            Some(rest) => match text::split_at_first(rest, ':') {
                Some((group, proxy)) => match (percent::decode(group), percent::decode(proxy)) {
                    (Some(group), Some(proxy)) => Some(
                        TrayProxyMenuAction::SelectNode { group, proxy },
                    ),
                    _ => None,
                },
                None => None,
            },
            None => match text::strip_prefix(id, DELAY_TEST_PREFIX) {
                Some(rest) => match percent::decode(rest) {
                    Some(group) => Some(TrayProxyMenuAction::TestGroupDelay { group }),
                    None => None,
                },
                None => None,
            },
        }
    }
}

/// The prefixes differ at their seventh character.
proof fn lemma_prefixes()
    ensures
        NODE_PREFIX@.len() == 11,
        NODE_PREFIX@[6] == 'n',
        DELAY_TEST_PREFIX@.len() == 17,
        DELAY_TEST_PREFIX@[6] == 'd',
        GROUP_PREFIX@.len() == 12,
        GROUP_PREFIX@[6] == 'g',
{
    reveal_strlit("proxy_node:");
    reveal_strlit("proxy_delay_test:");
    reveal_strlit("proxy_group_");
}

/// A node identifier parses back to its own group and node, whatever the names hold.
pub proof fn node_id_round_trip(group: Seq<char>, proxy: Seq<char>)
    ensures
        action_of(node_id(group, proxy)) == Some(MenuAction::SelectNode { group, proxy }),
{
    let id = node_id(group, proxy);
    let left = percent::encoded(group);
    let right = percent::encoded(proxy);
    let rest = id.skip(NODE_PREFIX@.len() as int);
    assert(rest =~= left + seq![':'] + right);
    assert(NODE_PREFIX@ =~= id.subrange(0, NODE_PREFIX@.len() as int));
    percent::lemma_encoded_bytes_chars(vstd::utf8::encode_utf8(group));
    assert forall|i: int| 0 <= i < left.len() implies rest[i] != ':' by {
        assert(rest[i] == left[i]);
        assert(percent::is_encoded_char(left[i]));
    }
    text::lemma_first_position(rest, ':', left.len() as int);
    assert(rest.take(left.len() as int) =~= left);
    assert(rest.skip(left.len() as int + 1) =~= right);
    percent::decoding_undoes_encoding(group);
    percent::decoding_undoes_encoding(proxy);
}

/// A delay test identifier parses back to its own group, whatever the name holds.
pub proof fn delay_test_id_round_trip(group: Seq<char>)
    ensures
        action_of(delay_test_id(group)) == Some(MenuAction::TestGroupDelay { group }),
{
    lemma_prefixes();
    let id = delay_test_id(group);
    assert(id[6] == 'd');
    assert(!NODE_PREFIX@.is_prefix_of(id));
    assert(DELAY_TEST_PREFIX@ =~= id.subrange(0, DELAY_TEST_PREFIX@.len() as int));
    assert(id.skip(DELAY_TEST_PREFIX@.len() as int) =~= percent::encoded(group));
    percent::decoding_undoes_encoding(group);
}

/// The identifier of a group submenu stands for no action, whatever the name holds.
pub proof fn group_id_has_no_action(group: Seq<char>)
    ensures
        action_of(group_id(group)) is None,
{
    lemma_prefixes();
    assert(group_id(group)[6] == 'g');
}

/// Entries with different meaning never share an identifier: two node identifiers are equal only
/// for the same group and node, two delay test identifiers only for the same group, and a node
/// identifier is never a delay test identifier.
pub proof fn ids_are_distinct(
    group: Seq<char>,
    proxy: Seq<char>,
    other_group: Seq<char>,
    other_proxy: Seq<char>,
)
    ensures
        node_id(group, proxy) == node_id(other_group, other_proxy) ==> group == other_group && proxy
            == other_proxy,
        delay_test_id(group) == delay_test_id(other_group) ==> group == other_group,
        node_id(group, proxy) != delay_test_id(other_group),
{
    node_id_round_trip(group, proxy);
    node_id_round_trip(other_group, other_proxy);
    delay_test_id_round_trip(group);
    delay_test_id_round_trip(other_group);
}

/// The view of an action names the same group and the same node.
pub proof fn action_view_keeps_names(group: String, proxy: String)
    ensures
        (TrayProxyMenuAction::SelectNode { group, proxy })@ == (MenuAction::SelectNode {
            group: group@,
            proxy: proxy@,
        }),
        (TrayProxyMenuAction::TestGroupDelay { group })@ == (MenuAction::TestGroupDelay {
            group: group@,
        }),
{
}

/// A node identifier names the group before its first colon and the node behind it, each
/// percent-encoded. A delay test identifier names its group percent-encoded, and that of a submenu
/// names it as it is.
pub proof fn ids_spell_out_their_names(group: Seq<char>, proxy: Seq<char>)
    ensures
        node_id(group, proxy) == "proxy_node:"@ + (percent::encoded(group) + (seq![':']
            + percent::encoded(proxy))),
        delay_test_id(group) == "proxy_delay_test:"@ + percent::encoded(group),
        group_id(group) == "proxy_group_"@ + group,
{
    assert(node_id(group, proxy) =~= "proxy_node:"@ + (percent::encoded(group) + (seq![':']
        + percent::encoded(proxy))));
}

/// A node identifier, whoever wrote it, selects the node that is spelled behind its first colon in
/// the group that is spelled before it. It has no action where one of them does not decode, or
/// where there is no colon.
pub proof fn node_ids_are_read_part_by_part(left: Seq<char>, right: Seq<char>)
    requires
        !left.contains(':'),
    ensures
        match (percent::decoded(left), percent::decoded(right)) {
            (Some(group), Some(proxy)) => action_of("proxy_node:"@ + left + seq![':'] + right)
                == Some(MenuAction::SelectNode { group, proxy }),
            _ => action_of("proxy_node:"@ + left + seq![':'] + right) is None,
        },
        action_of("proxy_node:"@ + left) is None,
{
    let prefix = "proxy_node:"@;
    let id = prefix + left + seq![':'] + right;
    let short = prefix + left;
    text::first_split_parts(left, ':', right);
    assert(prefix =~= id.subrange(0, prefix.len() as int));
    assert(id.skip(prefix.len() as int) =~= left + seq![':'] + right);
    assert(prefix =~= short.subrange(0, prefix.len() as int));
    assert(short.skip(prefix.len() as int) =~= left);
}

/// A delay test identifier, whoever wrote it, tests the group that all of its rest spells. It has no
/// action where that does not decode.
pub proof fn delay_test_ids_are_read_whole(rest: Seq<char>)
    ensures
        match percent::decoded(rest) {
            Some(group) => action_of("proxy_delay_test:"@ + rest) == Some(
                MenuAction::TestGroupDelay { group },
            ),
            None => action_of("proxy_delay_test:"@ + rest) is None,
        },
{
    lemma_prefixes();
    let prefix = "proxy_delay_test:"@;
    let id = prefix + rest;
    assert(id[6] == 'd');
    assert(!NODE_PREFIX@.is_prefix_of(id));
    assert(prefix =~= id.subrange(0, prefix.len() as int));
    assert(id.skip(prefix.len() as int) =~= rest);
}

/// An identifier that starts with neither of the two prefixes has no action.
pub proof fn other_ids_have_no_action(id: Seq<char>)
    requires
        forall|rest: Seq<char>| id != #[trigger] ("proxy_node:"@ + rest),
        forall|rest: Seq<char>| id != #[trigger] ("proxy_delay_test:"@ + rest),
    ensures
        action_of(id) is None,
{
    if NODE_PREFIX@.is_prefix_of(id) {
        let rest = id.skip(NODE_PREFIX@.len() as int);
        assert(id =~= "proxy_node:"@ + rest);
    }
    if DELAY_TEST_PREFIX@.is_prefix_of(id) {
        let rest = id.skip(DELAY_TEST_PREFIX@.len() as int);
        assert(id =~= "proxy_delay_test:"@ + rest);
    }
}

} // verus!
