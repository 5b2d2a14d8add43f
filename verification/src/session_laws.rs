//! What the session cards keep true across their operations.

use vstd::prelude::*;
use crate::markdown_copy::HyperlinkLineView;
use crate::session::{
    AskForApproval, ManagedFileSystemPermissions, NetworkSandboxPolicy, PermissionProfile,
    yolo_spec, GreetingSlot, HistoryCellView, HeaderView, bound_greeting, choose_into, fullscreen_spec,
    join_groups, part_groups, with_greeting,
};

verus! {

/// Binding a greeting replaces any earlier binding: of two bindings the later one wins.
pub proof fn law_latest_greeting_wins(
    c: HistoryCellView,
    first: Option<GreetingSlot>,
    second: Option<GreetingSlot>,
)
    ensures
        with_greeting(with_greeting(c, first), second) == with_greeting(c, second),
    decreases c,
{
    match c {
        HistoryCellView::Header(h) => {
            assert(with_greeting(with_greeting(c, first), second) == HistoryCellView::Header(
                HeaderView { greeting: second, ..h },
            ));
        },
        HistoryCellView::Info(parts) => {
            let once = with_greeting(c, first)->Info_0;
            let twice = with_greeting(with_greeting(c, first), second)->Info_0;
            let direct = with_greeting(c, second)->Info_0;
            assert forall|i: int| 0 <= i < parts.len() implies #[trigger] twice[i] == direct[i] by {
                assert(once[i] == with_greeting(parts[i], first));
                law_latest_greeting_wins(parts[i], first, second);
            }
            assert(twice =~= direct);
        },
        _ => {},
    }
}

/// Every session header of a card, at any depth, is bound to `greeting`.
pub open spec fn headers_greet(c: HistoryCellView, greeting: Option<GreetingSlot>) -> bool
    decreases c,
{
    match c {
        HistoryCellView::Header(h) => h.greeting == greeting,
        HistoryCellView::Info(parts) => forall|i: int|
            0 <= i < parts.len() ==> headers_greet(#[trigger] parts[i], greeting),
        _ => true,
    }
}

/// After binding, every header of the card is bound to the greeting slot.
pub proof fn law_greeting_reaches_every_header(c: HistoryCellView, greeting: Option<GreetingSlot>)
    ensures
        headers_greet(with_greeting(c, greeting), greeting),
    decreases c,
{
    if let HistoryCellView::Info(parts) = c {
        let bound = with_greeting(c, greeting)->Info_0;
        assert forall|i: int| 0 <= i < bound.len() implies headers_greet(
            #[trigger] bound[i],
            greeting,
        ) by {
            law_greeting_reaches_every_header(parts[i], greeting);
        }
    }
}

/// Every session header of a card, at any depth, shows `greeting` with the slots as they
/// are in `slots`.
pub open spec fn headers_show(
    c: HistoryCellView,
    slots: Seq<Option<Seq<char>>>,
    greeting: Option<Seq<char>>,
) -> bool
    decreases c,
{
    match c {
        HistoryCellView::Header(h) => bound_greeting(slots, h.greeting) == greeting,
        HistoryCellView::Info(parts) => forall|i: int|
            0 <= i < parts.len() ==> headers_show(#[trigger] parts[i], slots, greeting),
        _ => true,
    }
}

proof fn lemma_bound_headers_show(c: HistoryCellView, slot: GreetingSlot, slots: Seq<Option<Seq<char>>>)
    requires
        headers_greet(c, Some(slot)),
    ensures
        headers_show(c, slots, bound_greeting(slots, Some(slot))),
    decreases c,
{
    if let HistoryCellView::Info(parts) = c {
        assert forall|i: int| 0 <= i < parts.len() implies headers_show(
            #[trigger] parts[i],
            slots,
            bound_greeting(slots, Some(slot)),
        ) by {
            lemma_bound_headers_show(parts[i], slot, slots);
        }
    }
}

/// A greeting chosen after headers were bound shows in them: once a card's headers are
/// bound to a thread's slot, choosing a greeting into the empty slot makes every one of
/// them show it.
pub proof fn law_later_greeting_reaches_bound_headers(
    c: HistoryCellView,
    slot: GreetingSlot,
    slots: Seq<Option<Seq<char>>>,
    greeting: Seq<char>,
)
    requires
        slot.id < slots.len(),
        slots[slot.id as int] is None,
    ensures
        headers_show(
            with_greeting(c, Some(slot)),
            choose_into(slots, slot, greeting),
            Some(greeting),
        ),
{
    law_greeting_reaches_every_header(c, Some(slot));
    lemma_bound_headers_show(with_greeting(c, Some(slot)), slot, choose_into(slots, slot, greeting));
}

proof fn lemma_join_skips_empty(groups: Seq<Seq<HyperlinkLineView>>, i: int)
    requires
        0 <= i < groups.len(),
        groups[i].len() == 0,
    ensures
        join_groups(groups) == join_groups(groups.remove(i)),
    decreases groups.len(),
{
    if i == groups.len() - 1 {
        assert(groups.remove(i) =~= groups.drop_last());
    } else {
        let rest = groups.drop_last();
        lemma_join_skips_empty(rest, i);
        assert(groups.remove(i).drop_last() =~= rest.remove(i));
        assert(groups.remove(i).last() == groups.last());
    }
}

/// The fullscreen transcript omits tips: removing a tip from a session card leaves its
/// fullscreen lines as they were.
pub proof fn law_fullscreen_omits_tips(
    parts: Seq<HistoryCellView>,
    i: int,
    greetings: Seq<Option<Seq<char>>>,
    width: u16,
)
    requires
        0 <= i < parts.len(),
        parts[i] is Tooltip,
    ensures
        fullscreen_spec(HistoryCellView::Info(parts), greetings, width) == fullscreen_spec(
            HistoryCellView::Info(parts.remove(i)),
            greetings,
            width,
        ),
{
    let groups = part_groups(parts, greetings, width);
    let fewer = part_groups(parts.remove(i), greetings, width);
    assert(groups[i].len() == 0);
    lemma_join_skips_empty(groups, i);
    assert forall|k: int| 0 <= k < fewer.len() implies #[trigger] fewer[k] == groups.remove(i)[k] by {
        if k < i {
            assert(parts.remove(i)[k] == parts[k]);
        } else {
            assert(parts.remove(i)[k] == parts[k + 1]);
        }
    }
    assert(fewer =~= groups.remove(i));
}

/// YOLO mode means no approvals and no sandbox: it needs the never-ask policy, and any
/// managed sandbox that restricts the network or the file system rules it out, whatever
/// else is set; with no sandbox, or a managed one that restricts neither, never asking is
/// YOLO mode.
pub proof fn law_yolo_needs_no_approvals_and_no_sandbox(
    approval: AskForApproval,
    profile: PermissionProfile,
    file_system: ManagedFileSystemPermissions,
    network: NetworkSandboxPolicy,
)
    ensures
        yolo_spec(approval, profile) ==> approval == AskForApproval::Never,
        network == NetworkSandboxPolicy::Restricted ==> !yolo_spec(
            approval,
            PermissionProfile::Managed { file_system, network },
        ),
        file_system == ManagedFileSystemPermissions::Restricted ==> !yolo_spec(
            approval,
            PermissionProfile::Managed { file_system, network },
        ),
        yolo_spec(AskForApproval::Never, PermissionProfile::Disabled),
        yolo_spec(
            AskForApproval::Never,
            PermissionProfile::Managed {
                file_system: ManagedFileSystemPermissions::Unrestricted,
                network: NetworkSandboxPolicy::Enabled,
            },
        ),
{
}

} // verus!
