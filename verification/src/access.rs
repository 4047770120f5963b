//! Access entries of a lockbox: which key slots a vault identity holds, which
//! contacts remain after a revocation, how a revocation target is resolved
//! and how a refresh of access entries is reported.

use vstd::prelude::*;
use crate::text;
use crate::args::{parse_unsigned, parsed_unsigned};
use crate::output::row_view;
use crate::recovery::{SlotProtection, slot_protection};
use crate::messages::{CliMessage, Failure, cli_error, is_plain_error};

verus! {

/// A key slot of a lockbox.
#[derive(Clone, Copy, Debug)]
pub struct AccessSlot {
    pub id: u64,
    pub protection: SlotProtection,
}

/// The local vault label of a slot: the first label recorded for its id.
pub open spec fn label_of(labels: Seq<(u64, String)>, id: u64) -> Option<Seq<char>>
    decreases labels.len(),
{
    if labels.len() == 0 {
        None
    } else if labels[0].0 == id {
        Some(labels[0].1@)
    } else {
        label_of(labels.drop_first(), id)
    }
}

fn slot_label(labels: &[(u64, String)], id: u64) -> (r: Option<&String>)
    ensures
        match label_of(labels@, id) {
            Some(n) => r matches Some(s) && s@ == n,
            None => r is None,
        },
{
    let n = labels.len();
    let mut i: usize = 0;
    assert(labels@.subrange(0, n as int) =~= labels@);
    while i < n
        invariant
            i <= n,
            n == labels@.len(),
            label_of(labels@, id) == label_of(labels@.subrange(i as int, n as int), id),
        decreases n - i,
    {
        let ghost rest = labels@.subrange(i as int, n as int);
        assert(rest.drop_first() =~= labels@.subrange(i + 1, n as int));
        assert(rest[0] == labels@[i as int]);
        if labels[i].0 == id {
            return Some(&labels[i].1);
        }
        i = i + 1;
    }
    None
}

/// The ids of the contact slots labelled with an identity, in slot order.
pub open spec fn matching_ids(slots: Seq<AccessSlot>, labels: Seq<(u64, String)>, identity: Seq<char>) -> Seq<u64>
    decreases slots.len(),
{
    if slots.len() == 0 {
        Seq::empty()
    } else {
        let s = slots.last();
        let earlier = matching_ids(slots.drop_last(), labels, identity);
        if s.protection == SlotProtection::Contact && label_of(labels, s.id) == Some(identity) {
            earlier.push(s.id)
        } else {
            earlier
        }
    }
}

/// The ids of the contact slots whose local label is the identity.
pub fn matching_contact_slot_ids(slots: &[AccessSlot], labels: &[(u64, String)], identity: &str) -> (r: Vec<u64>)
    ensures r@ == matching_ids(slots@, labels@, identity@),
{
    let mut out: Vec<u64> = Vec::new();
    let n = slots.len();
    let mut i: usize = 0;
    while i < n
        invariant
            i <= n,
            n == slots@.len(),
            out@ == matching_ids(slots@.subrange(0, i as int), labels@, identity@),
        decreases n - i,
    {
        let s = slots[i];
        assert(slots@.subrange(0, i + 1).drop_last() =~= slots@.subrange(0, i as int));
        assert(slots@.subrange(0, i + 1).last() == s);
        if s.protection == SlotProtection::Contact {
            match slot_label(labels, s.id) {
                Some(name) => {
                    if text::str_eq(name.as_str(), identity) {
                        out.push(s.id);
                    }
                },
                None => {},
            }
        }
        i = i + 1;
    }
    assert(slots@.subrange(0, n as int) =~= slots@);
    out
}

/// The refusal for a retained slot that is not protected by a contact key.
pub open spec fn non_contact_message(id: u64) -> Seq<char> {
    "cannot true-revoke while retaining non-contact access slot "@ + text::dec(id as nat)
        + "; rekey requires a vault-resolvable contact or identity"@
}

/// The refusal for a retained slot without a local label.
pub open spec fn unlabelled_message(id: u64) -> Seq<char> {
    "cannot true-revoke because retained access slot "@ + text::dec(id as nat)
        + " has no local vault label; use `lockbox access list` and restore the contact label before revoking"@
}

/// The labels of the slots kept by a revocation, in slot order, or the
/// refusal for the first kept slot that cannot be rekeyed.
pub open spec fn kept_labels(slots: Seq<AccessSlot>, revoked: Seq<u64>, labels: Seq<(u64, String)>) -> Result<Seq<Seq<char>>, Seq<char>>
    decreases slots.len(),
{
    if slots.len() == 0 {
        Ok(Seq::empty())
    } else {
        match kept_labels(slots.drop_last(), revoked, labels) {
            Err(e) => Err(e),
            Ok(names) => {
                let s = slots.last();
                if revoked.contains(s.id) {
                    Ok(names)
                } else if s.protection != SlotProtection::Contact {
                    Err(non_contact_message(s.id))
                } else {
                    match label_of(labels, s.id) {
                        None => Err(unlabelled_message(s.id)),
                        Some(n) => Ok(names.push(n)),
                    }
                }
            },
        }
    }
}

/// The labels of the contacts that keep access after the slots in `revoked`
/// are revoked. Refused when nothing would remain, when a kept slot is not a
/// contact slot or has no local label, and when no contact is kept.
pub fn retained_contact_names(slots: &[AccessSlot], revoked: &[u64], labels: &[(u64, String)]) -> (r: Result<Vec<String>, CliMessage>)
    requires revoked@.no_duplicates(),
    ensures
        revoked@.len() >= slots@.len() ==> (r matches Err(m)
            && is_plain_error(m, "cannot revoke the last access entry; grant another identity or contact first"@)),
        revoked@.len() < slots@.len() ==> match kept_labels(slots@, revoked@, labels@) {
            Err(e) => r matches Err(m) && is_plain_error(m, e),
            Ok(names) => if names.len() == 0 {
                r matches Err(m) && is_plain_error(m, "cannot true-revoke without at least one retained contact or identity"@)
            } else {
                r matches Ok(v) && row_view(v@) == names
            },
        },
{
    if revoked.len() >= slots.len() {
        return Err(cli_error("cannot revoke the last access entry; grant another identity or contact first"));
    }
    let mut names: Vec<String> = Vec::new();
    let n = slots.len();
    let mut i: usize = 0;
    assert(row_view(names@) =~= Seq::<Seq<char>>::empty());
    assert(slots@.subrange(0, 0) =~= Seq::<AccessSlot>::empty());
    while i < n
        invariant
            i <= n,
            n == slots@.len(),
            revoked@.len() < slots@.len(),
            kept_labels(slots@.subrange(0, i as int), revoked@, labels@) == Ok::<Seq<Seq<char>>, Seq<char>>(row_view(names@)),
        decreases n - i,
    {
        let s = slots[i];
        assert(slots@.subrange(0, i + 1).drop_last() =~= slots@.subrange(0, i as int));
        assert(slots@.subrange(0, i + 1).last() == s);
        let mut is_revoked = false;
        let mut j: usize = 0;
        while j < revoked.len()
            invariant
                j <= revoked@.len(),
                is_revoked == revoked@.subrange(0, j as int).contains(s.id),
            decreases revoked@.len() - j,
        {
            let ghost pre = revoked@.subrange(0, j as int);
            assert(revoked@.subrange(0, j + 1) =~= pre.push(revoked@[j as int]));
            if revoked[j] == s.id {
                is_revoked = true;
                assert(pre.push(revoked@[j as int])[j as int] == s.id);
            } else {
                assert(pre.push(revoked@[j as int]).contains(s.id) ==> pre.contains(s.id)) by {
                    if pre.push(revoked@[j as int]).contains(s.id) {
                        let k = choose|k: int| 0 <= k < pre.len() + 1 && pre.push(revoked@[j as int])[k] == s.id;
                        assert(k < pre.len());
                        assert(pre[k] == s.id);
                    }
                }
            }
            j = j + 1;
        }
        assert(revoked@.subrange(0, revoked@.len() as int) =~= revoked@);
        if !is_revoked {
            if s.protection != SlotProtection::Contact {
                let id = text::decimal(s.id);
                let mut message = text::concat2("cannot true-revoke while retaining non-contact access slot ", id.as_str());
                text::push_str(&mut message, "; rekey requires a vault-resolvable contact or identity");
                assert(kept_labels(slots@, revoked@, labels@) == Err::<Seq<Seq<char>>, Seq<char>>(non_contact_message(s.id))) by {
                    lemma_kept_labels_error_stays(slots@, revoked@, labels@, i as int + 1);
                }
                return Err(cli_error(message.as_str()));
            }
            match slot_label(labels, s.id) {
                None => {
                    let id = text::decimal(s.id);
                    let mut message = text::concat2("cannot true-revoke because retained access slot ", id.as_str());
                    text::push_str(&mut message, " has no local vault label; use `lockbox access list` and restore the contact label before revoking");
                    assert(kept_labels(slots@, revoked@, labels@) == Err::<Seq<Seq<char>>, Seq<char>>(unlabelled_message(s.id))) by {
                        lemma_kept_labels_error_stays(slots@, revoked@, labels@, i as int + 1);
                    }
                    return Err(cli_error(message.as_str()));
                },
                Some(name) => {
                    let ghost before = names@;
                    names.push(name.clone());
                    assert(row_view(names@) =~= row_view(before).push(name@));
                },
            }
        }
        i = i + 1;
    }
    assert(slots@.subrange(0, n as int) =~= slots@);
    if names.len() == 0 {
        return Err(cli_error("cannot true-revoke without at least one retained contact or identity"));
    }
    Ok(names)
}

proof fn lemma_kept_labels_error_stays(slots: Seq<AccessSlot>, revoked: Seq<u64>, labels: Seq<(u64, String)>, i: int)
    requires
        0 <= i <= slots.len(),
        kept_labels(slots.subrange(0, i), revoked, labels) is Err,
    ensures kept_labels(slots, revoked, labels) == kept_labels(slots.subrange(0, i), revoked, labels),
    decreases slots.len() - i,
{
    if i < slots.len() {
        assert(slots.subrange(0, i + 1).drop_last() =~= slots.subrange(0, i));
        lemma_kept_labels_error_stays(slots, revoked, labels, i + 1);
    } else {
        assert(slots.subrange(0, i) =~= slots);
    }
}

/// The slot that a revocation names: a slot id, or the one slot labelled
/// with the target. `exact` holds the slots labelled with the target itself;
/// `prefixed` those labelled `identity:` or `contact:` and the target, which
/// are consulted only when no exact label exists and the target has no `:`.
pub open spec fn revoke_target_of(target: Seq<char>, exact: Seq<u64>, prefixed: Seq<u64>) -> Result<u64, Seq<char>> {
    match parsed_unsigned(target, u64::MAX as nat) {
        Some(v) => Ok(v as u64),
        None => {
            let found = if exact.len() == 0 && !text::has_char(target, ':') { prefixed } else { exact };
            if found.len() == 1 {
                Ok(found[0])
            } else if found.len() == 0 {
                Err("no local access label named "@ + target + "; use `lockbox access list` and revoke by slot id"@)
            } else {
                Err("multiple local access labels named "@ + target + "; revoke by slot id"@)
            }
        },
    }
}

/// Resolves the slot that a revocation names.
pub fn resolve_revoke_target(target: &str, exact: &[u64], prefixed: &[u64]) -> (r: Result<u64, CliMessage>)
    ensures
        match revoke_target_of(target@, exact@, prefixed@) {
            Ok(id) => r == Ok::<u64, CliMessage>(id),
            Err(e) => r matches Err(m) && is_plain_error(m, e),
        },
{
    if let Some(id) = parse_unsigned(target, u64::MAX) {
        return Ok(id);
    }
    let found = if exact.len() == 0 && !text::contains_char(target, ':') { prefixed } else { exact };
    if found.len() == 1 {
        Ok(found[0])
    } else if found.len() == 0 {
        let message = text::concat3("no local access label named ", target, "; use `lockbox access list` and revoke by slot id");
        Err(cli_error(message.as_str()))
    } else {
        let message = text::concat3("multiple local access labels named ", target, "; revoke by slot id");
        Err(cli_error(message.as_str()))
    }
}

/// A lockbox whose access entries for an identity would be refreshed.
#[derive(Clone, Debug)]
pub struct RefreshTarget {
    pub lockbox_path: String,
    pub identity: String,
    pub slot_count: usize,
}

/// The number of access entries over all targets.
pub open spec fn entry_total(targets: Seq<RefreshTarget>) -> nat
    decreases targets.len(),
{
    if targets.len() == 0 { 0 } else { entry_total(targets.drop_last()) + targets.last().slot_count as nat }
}

/// `yes` or `no`.
pub open spec fn yes_no_text(b: bool) -> Seq<char> {
    if b { "yes"@ } else { "no"@ }
}

/// A section of the report: a blank line, a heading and its lines, when there
/// are any lines.
pub open spec fn section(heading: Seq<char>, lines: Seq<Seq<char>>) -> Seq<Seq<char>> {
    if lines.len() > 0 { seq![""@, heading] + lines } else { Seq::empty() }
}

/// The report of a refresh plan: the identity and counts, then the targets,
/// the missing and the inaccessible known lockboxes.
pub open spec fn refresh_plan(
    identity: Option<Seq<char>>,
    known_count: Option<usize>,
    targets: Seq<RefreshTarget>,
    missing: Seq<Seq<char>>,
    inaccessible: Seq<(String, String)>,
    dry_run: bool,
    yes: bool,
) -> Seq<Seq<char>> {
    seq!["Refresh plan:"@, "  identity: "@ + match identity { Some(i) => i, None => "all"@ }]
        + match known_count { Some(k) => seq!["  known lockboxes: "@ + text::dec(k as nat)], None => Seq::empty() }
        + seq![
            "  matching lockbox/identity pairs: "@ + text::dec(targets.len()),
            "  matching access entries: "@ + text::dec(entry_total(targets)),
            "  dry run: "@ + yes_no_text(dry_run),
            "  apply without prompt: "@ + yes_no_text(yes),
            "  missing: "@ + text::dec(missing.len()),
            "  inaccessible: "@ + text::dec(inaccessible.len())
        ]
        + section("Refresh targets:"@, targets.map_values(|t: RefreshTarget|
            "  "@ + t.lockbox_path@ + " "@ + t.identity@ + " ("@ + text::dec(t.slot_count as nat) + " access entries)"@))
        + section("Missing known lockboxes:"@, missing.map_values(|p: Seq<char>| "  "@ + p))
        + section("Inaccessible known lockboxes:"@, inaccessible.map_values(|e: (String, String)| "  "@ + e.0@ + ": "@ + e.1@))
}

fn count_text(label: &str, n: usize) -> (r: String)
    ensures r@ == label@ + text::dec(n as nat),
{
    let d = text::decimal(n as u64);
    text::concat2(label, d.as_str())
}

fn push_section(out: &mut Vec<String>, heading: &str, lines: Vec<String>)
    ensures row_view(final(out)@) == row_view(old(out)@) + section(heading@, row_view(lines@)),
{
    if lines.len() > 0 {
        let ghost base = out@;
        out.push(text::owned(""));
        out.push(text::owned(heading));
        let n = lines.len();
        let mut i: usize = 0;
        while i < n
            invariant
                i <= n,
                n == lines@.len(),
                row_view(out@) == row_view(base) + seq![""@, heading@] + row_view(lines@.subrange(0, i as int)),
            decreases n - i,
        {
            let ghost prev = out@;
            out.push(lines[i].clone());
            proof {
                assert(row_view(out@) =~= row_view(prev).push(lines@[i as int]@));
                assert(row_view(lines@.subrange(0, i + 1)) =~= row_view(lines@.subrange(0, i as int)).push(lines@[i as int]@));
            }
            i = i + 1;
        }
        assert(lines@.subrange(0, n as int) =~= lines@);
    } else {
        assert(row_view(out@) =~= row_view(old(out)@) + section(heading@, row_view(lines@)));
    }
}

/// The lines that report a refresh plan.
pub fn refresh_plan_lines(
    identity: Option<&str>,
    known_count: Option<usize>,
    targets: &[RefreshTarget],
    missing: &[String],
    inaccessible: &[(String, String)],
    dry_run: bool,
    yes: bool,
) -> (r: Vec<String>)
    requires entry_total(targets@) <= usize::MAX,
    ensures
        row_view(r@) == refresh_plan(match identity { Some(i) => Some(i@), None => None }, known_count,
            targets@, row_view(missing@), inaccessible@, dry_run, yes),
{
    let mut out: Vec<String> = Vec::new();
    out.push(text::owned("Refresh plan:"));
    match identity {
        Some(i) => out.push(text::concat2("  identity: ", i)),
        None => out.push(text::concat2("  identity: ", "all")),
    }
    match known_count {
        Some(k) => out.push(count_text("  known lockboxes: ", k)),
        None => {},
    }
    let ghost head = out@;
    let n = targets.len();
    let mut total: usize = 0;
    let mut i: usize = 0;
    while i < n
        invariant
            i <= n,
            n == targets@.len(),
            entry_total(targets@) <= usize::MAX,
            total as nat == entry_total(targets@.subrange(0, i as int)),
        decreases n - i,
    {
        assert(targets@.subrange(0, i + 1).drop_last() =~= targets@.subrange(0, i as int));
        proof { lemma_entry_total_prefix(targets@, i as int + 1); }
        total = total + targets[i].slot_count;
        i = i + 1;
    }
    assert(targets@.subrange(0, n as int) =~= targets@);
    out.push(count_text("  matching lockbox/identity pairs: ", n));
    out.push(count_text("  matching access entries: ", total));
    out.push(text::concat2("  dry run: ", crate::mirror::yes_no(dry_run)));
    out.push(text::concat2("  apply without prompt: ", crate::mirror::yes_no(yes)));
    out.push(count_text("  missing: ", missing.len()));
    out.push(count_text("  inaccessible: ", inaccessible.len()));
    let ghost stats = out@;
    proof {
        let idv: Option<Seq<char>> = match identity { Some(i) => Some(i@), None => None };
        let known: Seq<Seq<char>> = match known_count { Some(k) => seq!["  known lockboxes: "@ + text::dec(k as nat)], None => Seq::empty() };
        assert(row_view(stats) =~= seq!["Refresh plan:"@, "  identity: "@ + match idv { Some(i) => i, None => "all"@ }]
            + known
            + seq![
                "  matching lockbox/identity pairs: "@ + text::dec(targets@.len()),
                "  matching access entries: "@ + text::dec(entry_total(targets@)),
                "  dry run: "@ + yes_no_text(dry_run),
                "  apply without prompt: "@ + yes_no_text(yes),
                "  missing: "@ + text::dec(missing@.len()),
                "  inaccessible: "@ + text::dec(inaccessible@.len())
            ]);
    }
    let mut target_lines: Vec<String> = Vec::new();
    let mut k: usize = 0;
    while k < n
        invariant
            k <= n,
            n == targets@.len(),
            target_lines@.len() == k,
            forall|j: int| 0 <= j < k ==> #[trigger] target_lines@[j]@ == "  "@ + targets@[j].lockbox_path@ + " "@
                + targets@[j].identity@ + " ("@ + text::dec(targets@[j].slot_count as nat) + " access entries)"@,
        decreases n - k,
    {
        let t = &targets[k];
        let mut line = text::concat3("  ", t.lockbox_path.as_str(), " ");
        text::push_str(&mut line, t.identity.as_str());
        let c = count_text(" (", t.slot_count);
        text::push_str(&mut line, c.as_str());
        text::push_str(&mut line, " access entries)");
        target_lines.push(line);
        k = k + 1;
    }
    assert(row_view(target_lines@) =~= targets@.map_values(|t: RefreshTarget|
        "  "@ + t.lockbox_path@ + " "@ + t.identity@ + " ("@ + text::dec(t.slot_count as nat) + " access entries)"@));
    push_section(&mut out, "Refresh targets:", target_lines);
    let mut missing_lines: Vec<String> = Vec::new();
    let m = missing.len();
    let mut k: usize = 0;
    while k < m
        invariant
            k <= m,
            m == missing@.len(),
            missing_lines@.len() == k,
            forall|j: int| 0 <= j < k ==> #[trigger] missing_lines@[j]@ == "  "@ + missing@[j]@,
        decreases m - k,
    {
        missing_lines.push(text::concat2("  ", missing[k].as_str()));
        k = k + 1;
    }
    assert(row_view(missing_lines@) =~= row_view(missing@).map_values(|p: Seq<char>| "  "@ + p));
    push_section(&mut out, "Missing known lockboxes:", missing_lines);
    let mut inaccessible_lines: Vec<String> = Vec::new();
    let q = inaccessible.len();
    let mut k: usize = 0;
    while k < q
        invariant
            k <= q,
            q == inaccessible@.len(),
            inaccessible_lines@.len() == k,
            forall|j: int| 0 <= j < k ==> #[trigger] inaccessible_lines@[j]@ == "  "@ + inaccessible@[j].0@ + ": "@ + inaccessible@[j].1@,
        decreases q - k,
    {
        let mut line = text::concat3("  ", inaccessible[k].0.as_str(), ": ");
        text::push_str(&mut line, inaccessible[k].1.as_str());
        inaccessible_lines.push(line);
        k = k + 1;
    }
    assert(row_view(inaccessible_lines@) =~= inaccessible@.map_values(|e: (String, String)| "  "@ + e.0@ + ": "@ + e.1@));
    push_section(&mut out, "Inaccessible known lockboxes:", inaccessible_lines);
    assert(row_view(out@) =~= refresh_plan(match identity { Some(i) => Some(i@), None => None }, known_count,
        targets@, row_view(missing@), inaccessible@, dry_run, yes));
    out
}

proof fn lemma_entry_total_prefix(targets: Seq<RefreshTarget>, i: int)
    requires 0 <= i <= targets.len(),
    ensures entry_total(targets.subrange(0, i)) <= entry_total(targets),
    decreases targets.len() - i,
{
    if i < targets.len() {
        assert(targets.subrange(0, i + 1).drop_last() =~= targets.subrange(0, i));
        lemma_entry_total_prefix(targets, i + 1);
    } else {
        assert(targets.subrange(0, i) =~= targets);
    }
}

/// The number of slots with a protection.
pub open spec fn protected_count(slots: Seq<AccessSlot>, p: SlotProtection) -> nat
    decreases slots.len(),
{
    if slots.len() == 0 {
        0
    } else {
        protected_count(slots.drop_last(), p) + if slots.last().protection == p { 1nat } else { 0nat }
    }
}

/// The description of a slot's protection.
pub open spec fn protection_text(p: SlotProtection) -> Seq<char> {
    match p {
        SlotProtection::Password => "pass phrase"@,
        SlotProtection::Contact => "contact key"@,
        SlotProtection::Other => "unknown"@,
    }
}

/// The report of the access configured in a lockbox's public header: the
/// number of pass phrase and contact-key slots, then each slot.
pub open spec fn access_methods(slots: Seq<AccessSlot>) -> Seq<Seq<char>> {
    seq![
        "Configured access (public header)"@,
        "  pass phrase slots: "@ + text::dec(protected_count(slots, SlotProtection::Password)),
        "  contact-key slots: "@ + text::dec(protected_count(slots, SlotProtection::Contact))
    ] + if slots.len() > 0 {
        seq!["  slots:"@] + slots.map_values(|s: AccessSlot| "    "@ + text::dec(s.id as nat) + ": "@ + protection_text(s.protection))
    } else {
        Seq::empty()
    }
}

/// The lines that report a lockbox's configured access.
pub fn access_method_lines(slots: &[AccessSlot]) -> (r: Vec<String>)
    ensures row_view(r@) == access_methods(slots@),
{
    let n = slots.len();
    let mut passwords: usize = 0;
    let mut contacts: usize = 0;
    let mut slot_lines: Vec<String> = Vec::new();
    let mut i: usize = 0;
    while i < n
        invariant
            i <= n,
            n == slots@.len(),
            passwords as nat == protected_count(slots@.subrange(0, i as int), SlotProtection::Password),
            contacts as nat == protected_count(slots@.subrange(0, i as int), SlotProtection::Contact),
            passwords <= i,
            contacts <= i,
            slot_lines@.len() == i,
            forall|k: int| 0 <= k < i ==> #[trigger] slot_lines@[k]@ == "    "@ + text::dec(slots@[k].id as nat) + ": "@
                + protection_text(slots@[k].protection),
        decreases n - i,
    {
        let s = slots[i];
        assert(slots@.subrange(0, i + 1).drop_last() =~= slots@.subrange(0, i as int));
        assert(slots@.subrange(0, i + 1).last() == s);
        if s.protection == SlotProtection::Password {
            passwords = passwords + 1;
        }
        if s.protection == SlotProtection::Contact {
            contacts = contacts + 1;
        }
        let id = text::decimal(s.id);
        let mut line = text::concat3("    ", id.as_str(), ": ");
        text::push_str(&mut line, slot_protection(s.protection));
        slot_lines.push(line);
        i = i + 1;
    }
    assert(slots@.subrange(0, n as int) =~= slots@);
    let mut out: Vec<String> = Vec::new();
    out.push(text::owned("Configured access (public header)"));
    out.push(count_text("  pass phrase slots: ", passwords));
    out.push(count_text("  contact-key slots: ", contacts));
    let ghost head = out@;
    if n > 0 {
        out.push(text::owned("  slots:"));
        let mut k: usize = 0;
        while k < n
            invariant
                k <= n,
                n == slot_lines@.len(),
                row_view(out@) == row_view(head) + seq!["  slots:"@] + row_view(slot_lines@.subrange(0, k as int)),
            decreases n - k,
        {
            let ghost prev = out@;
            out.push(slot_lines[k].clone());
            proof {
                assert(row_view(out@) =~= row_view(prev).push(slot_lines@[k as int]@));
                assert(row_view(slot_lines@.subrange(0, k + 1)) =~= row_view(slot_lines@.subrange(0, k as int)).push(slot_lines@[k as int]@));
            }
            k = k + 1;
        }
        assert(slot_lines@.subrange(0, n as int) =~= slot_lines@);
        assert(row_view(slot_lines@) =~= slots@.map_values(|s: AccessSlot| "    "@ + text::dec(s.id as nat) + ": "@ + protection_text(s.protection)));
    }
    assert(row_view(out@) =~= access_methods(slots@));
    out
}

/// Which access entries `access refresh` refreshes.
#[derive(Clone, Debug)]
pub enum RefreshScope {
    /// Every remembered lockbox, for one identity or all of them.
    All { identity: Option<String> },
    /// One lockbox, for one identity.
    One { lockbox_path: String, identity: String },
}

/// The scope of `access refresh`: with `--all`, at most one identity; else a
/// lockbox (given before the command, or the session default) and an identity.
pub fn refresh_scope(
    all: bool,
    positionals: Vec<String>,
    command_lockbox: Option<&str>,
    session_default: Result<Option<String>, CliMessage>,
) -> (r: Result<RefreshScope, Failure>)
    ensures
        all && positionals@.len() > 1 ==> (r matches Err(Failure::Message(m))
            && is_plain_error(m, "access refresh --all accepts at most one identity argument"@)),
        all && positionals@.len() <= 1 ==> (r matches Ok(RefreshScope::All { identity })
            && (positionals@.len() == 0 ==> identity is None)
            && (positionals@.len() == 1 ==> (identity matches Some(i) && i@ == positionals@[0]@))),
        !all && command_lockbox is Some ==> ({
            let c = command_lockbox->0;
            &&& positionals@.len() < 1 ==> (r matches Err(Failure::Message(m)) && is_plain_error(m, "missing required argument"@))
            &&& positionals@.len() == 1 ==> (r matches Ok(RefreshScope::One { lockbox_path, identity })
                && lockbox_path@ == c@ && identity@ == positionals@[0]@)
            &&& positionals@.len() > 1 ==> (r matches Err(Failure::Message(m))
                && is_plain_error(m, "access refresh requires lockbox and identity arguments"@))
        }),
        !all && command_lockbox is None ==> ({
            &&& positionals@.len() > 0 && crate::args::lockbox_like(positionals@[0]@) ==> (r matches Err(Failure::Message(m))
                && is_plain_error(m, "lockbox paths must precede lockbox-scoped commands; use `lockbox LOCKBOX COMMAND ...`"@))
            &&& !(positionals@.len() > 0 && crate::args::lockbox_like(positionals@[0]@)) && positionals@.len() < 1 ==> (r matches Err(Failure::Message(m))
                && is_plain_error(m, "missing required argument"@))
            &&& !(positionals@.len() > 0 && crate::args::lockbox_like(positionals@[0]@)) && positionals@.len() >= 1 ==> match session_default {
                Err(e) => r == Err::<RefreshScope, Failure>(Failure::Message(e)),
                Ok(None) => r matches Err(Failure::Message(m))
                    && is_plain_error(m, "missing lockbox; pass a .lbox path or set a session default lockbox"@),
                Ok(Some(d)) => if positionals@.len() == 1 {
                    r matches Ok(RefreshScope::One { lockbox_path, identity }) && lockbox_path@ == d@ && identity@ == positionals@[0]@
                } else {
                    r matches Err(Failure::Message(m)) && is_plain_error(m, "access refresh requires lockbox and identity arguments"@)
                },
            }
        }),
{
    if all {
        if positionals.len() > 1 {
            return Err(Failure::Message(cli_error("access refresh --all accepts at most one identity argument")));
        }
        let identity = if positionals.len() == 1 { Some(positionals[0].clone()) } else { None };
        return Ok(RefreshScope::All { identity });
    }
    let ghost values = positionals@;
    let args = match crate::args::optional_lockbox_positionals(positionals, 1, command_lockbox, session_default) {
        Ok(a) => a,
        Err(e) => return Err(Failure::Message(e)),
    };
    if args.len() > 2 {
        return Err(Failure::Message(cli_error("access refresh requires lockbox and identity arguments")));
    }
    assert(args@.subrange(1, args@.len() as int) == values);
    assert(args@[1] == values[0]);
    let lockbox_path = args[0].clone();
    let identity = args[1].clone();
    Ok(RefreshScope::One { lockbox_path, identity })
}

/// A key slot as `access list` shows it: the texts of its protection and
/// algorithm as the lockbox names them.
#[derive(Clone, Debug)]
pub struct ListedSlot {
    pub id: u64,
    pub protection: String,
    pub algorithm: String,
}

/// The row of one slot in `access list`: slot, name, protection, algorithm,
/// owner fingerprint, whether the owner signed, created, updated.
pub open spec fn access_list_row(s: ListedSlot, labels: Seq<(u64, String)>, owner: Option<Seq<char>>,
    owner_signed: bool, created: Seq<char>, updated: Seq<char>) -> Seq<Seq<char>> {
    seq![
        text::dec(s.id as nat),
        match label_of(labels, s.id) { Some(n) => n, None => "-"@ },
        s.protection@,
        s.algorithm@,
        match owner { Some(f) => f, None => "-"@ },
        yes_no_text(owner_signed),
        created,
        updated,
    ]
}

/// The rows of `access list`, one per slot in slot order. `labels` holds the
/// local vault's label of each slot, one entry per slot id.
pub fn access_list_rows(slots: &[ListedSlot], labels: &[(u64, String)], owner_fingerprint: Option<&str>,
    owner_signed: bool, created: &str, updated: &str) -> (r: Vec<Vec<String>>)
    ensures
        r@.len() == slots@.len(),
        forall|i: int| 0 <= i < slots@.len() ==> row_view(#[trigger] r@[i]@) == access_list_row(slots@[i], labels@,
            match owner_fingerprint { Some(f) => Some(f@), None => None }, owner_signed, created@, updated@),
{
    let ghost owner = match owner_fingerprint { Some(f) => Some(f@), None => None::<Seq<char>> };
    let n = slots.len();
    let mut rows: Vec<Vec<String>> = Vec::new();
    let mut i: usize = 0;
    while i < n
        invariant
            i <= n,
            n == slots@.len(),
            rows@.len() == i,
            owner == match owner_fingerprint { Some(f) => Some(f@), None => None::<Seq<char>> },
            forall|k: int| 0 <= k < i ==> row_view(#[trigger] rows@[k]@) == access_list_row(slots@[k], labels@,
                owner, owner_signed, created@, updated@),
        decreases n - i,
    {
        let s = &slots[i];
        let name = match slot_label(labels, s.id) {
            Some(l) => l.clone(),
            None => text::owned("-"),
        };
        let owner_text = match owner_fingerprint {
            Some(f) => text::owned(f),
            None => text::owned("-"),
        };
        let signed = if owner_signed { text::owned("yes") } else { text::owned("no") };
        let mut row: Vec<String> = Vec::new();
        row.push(text::decimal(s.id));
        row.push(name);
        row.push(s.protection.clone());
        row.push(s.algorithm.clone());
        row.push(owner_text);
        row.push(signed);
        row.push(text::owned(created));
        row.push(text::owned(updated));
        assert(row_view(row@) =~= access_list_row(slots@[i as int], labels@, owner, owner_signed, created@, updated@));
        rows.push(row);
        i = i + 1;
    }
    rows
}

} // verus!
