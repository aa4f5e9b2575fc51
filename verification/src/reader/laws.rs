//! What holds of every scan, whatever the configuration and the events.
use vstd::prelude::*;
use super::error::ReadErrorModel;
use super::output_tag_value::RecordModel;
use super::scan::{
    closes_boundary, extract, initial_scan, lemma_scan_error_stays,
    lemma_step_keeps_store_consistent, read_outcome, scan, scan_tokens, step,
    store_is_consistent, wants_text, ScanModel,
};
use super::tokenizer::{token_reading, RawTokenModel};
use super::xml_event::EventModel;
use super::xml_read_config::ConfigModel;

verus! {

/// Each of the records is bound to a path that the configuration registers.
pub open spec fn all_registered(config: ConfigModel, records: Seq<RecordModel>) -> bool {
    forall|r: int|
        0 <= r < records.len() ==> config.entries.contains_key(
            (#[trigger] records[r]).tag_hierarchy,
        )
}

/// What the scan keeps true of the records it has let go of: those of the
/// pending group and those of the sealed groups are bound to registered
/// paths.
pub open spec fn emitted_are_registered(config: ConfigModel, s: ScanModel) -> bool {
    &&& all_registered(config, s.pending)
    &&& forall|g: int| 0 <= g < s.groups.len() ==> all_registered(config, #[trigger] s.groups[g])
}

/// One event keeps the emitted records bound to registered paths.
proof fn lemma_step_keeps_emitted_registered(config: ConfigModel, s: ScanModel, event: EventModel)
    requires
        store_is_consistent(s),
        emitted_are_registered(config, s),
    ensures
        step(config, s, event) matches Ok(next) ==> emitted_are_registered(config, next),
{
    lemma_step_keeps_store_consistent(config, s, event);
    if let Ok(next) = step(config, s, event) {
        if !s.terminated && event is EndTag {
            let moves = config.entries.contains_key(s.tag_hierarchy) && s.store.contains_key(
                s.tag_hierarchy,
            );
            let pending = if moves {
                s.pending.push(s.store[s.tag_hierarchy])
            } else {
                s.pending
            };
            assert(all_registered(config, pending)) by {
                assert forall|r: int| 0 <= r < pending.len() implies config.entries.contains_key(
                    (#[trigger] pending[r]).tag_hierarchy,
                ) by {
                    if r < s.pending.len() {
                        assert(pending[r] == s.pending[r]);
                    }
                }
            }
            assert forall|g: int| 0 <= g < next.groups.len() implies all_registered(
                config,
                #[trigger] next.groups[g],
            ) by {
                if g < s.groups.len() {
                    assert(next.groups[g] == s.groups[g]);
                }
            }
        }
    }
}

/// The state of every scan that was not aborted has a consistent store, and
/// the records it has let go of are bound to registered paths. A scan is
/// only ever aborted for an end tag that does not fit, or for text at the
/// top of a document that is configured as an element.
pub proof fn lemma_scan_invariant(config: ConfigModel, events: Seq<EventModel>)
    ensures
        scan(config, events) matches Ok(s) ==> store_is_consistent(s) && emitted_are_registered(
            config,
            s,
        ),
        scan(config, events) matches Err(e) ==> e is EmptyPath || e is StructuralMismatch,
    decreases events.len(),
{
    if events.len() > 0 {
        lemma_scan_invariant(config, events.drop_last());
        if let Ok(s) = scan(config, events.drop_last()) {
            lemma_step_keeps_store_consistent(config, s, events.last());
            lemma_step_keeps_emitted_registered(config, s, events.last());
        }
    }
}

/// Path fidelity: every record of every group that extraction returns is
/// bound to a tag path that the configuration registers.
pub proof fn lemma_path_fidelity(config: ConfigModel, events: Seq<EventModel>)
    ensures
        extract(config, events) matches Ok(groups) ==> forall|g: int, r: int|
            0 <= g < groups.len() && 0 <= r < groups[g].len() ==> config.entries.contains_key(
                (#[trigger] groups[g][r]).tag_hierarchy,
            ),
{
    lemma_scan_invariant(config, events);
    if let Ok(s) = scan(config, events) {
        assert forall|g: int, r: int|
            0 <= g < s.groups.len() && 0 <= r < s.groups[g].len() implies config.entries.contains_key(
            (#[trigger] s.groups[g][r]).tag_hierarchy,
        ) by {
            assert(all_registered(config, s.groups[g]));
        }
    }
}

/// Unconfigured path silence: a tag path that the configuration does not
/// register has no record, neither in a sealed group nor in the pending
/// one, whatever is registered below it.
pub proof fn lemma_unconfigured_path_is_silent(
    config: ConfigModel,
    events: Seq<EventModel>,
    tag_hierarchy: Seq<Seq<char>>,
)
    requires
        !config.entries.contains_key(tag_hierarchy),
    ensures
        scan(config, events) matches Ok(s) ==> {
            &&& forall|r: int|
                0 <= r < s.pending.len() ==> (#[trigger] s.pending[r]).tag_hierarchy
                    != tag_hierarchy
            &&& forall|g: int, r: int|
                0 <= g < s.groups.len() && 0 <= r < s.groups[g].len() ==> (
                #[trigger] s.groups[g][r]).tag_hierarchy != tag_hierarchy
        },
{
    lemma_scan_invariant(config, events);
    if let Ok(s) = scan(config, events) {
        assert forall|g: int, r: int|
            0 <= g < s.groups.len() && 0 <= r < s.groups[g].len() implies (
        #[trigger] s.groups[g][r]).tag_hierarchy != tag_hierarchy by {
            assert(all_registered(config, s.groups[g]));
        }
    }
}

/// How often the group-boundary element closes in `events`: the number of
/// end tags that arrive, before the end of the stream, while the tracked
/// path is the group-boundary path, and that name its last tag.
pub open spec fn boundary_closes(config: ConfigModel, events: Seq<EventModel>) -> nat
    decreases events.len(),
{
    if events.len() == 0 {
        0
    } else {
        let earlier = boundary_closes(config, events.drop_last());
        match (scan(config, events.drop_last()), events.last()) {
            (Ok(s), EventModel::EndTag { name }) => if !s.terminated && closes_boundary(
                config,
                s,
                name,
            ) {
                earlier + 1
            } else {
                earlier
            },
            _ => earlier,
        }
    }
}

/// Group cardinality: a scan that was not aborted has sealed as many groups
/// as there were closes of the group-boundary element.
pub proof fn lemma_group_cardinality(config: ConfigModel, events: Seq<EventModel>)
    ensures
        scan(config, events) matches Ok(s) ==> s.groups.len() == boundary_closes(config, events),
    decreases events.len(),
{
    if events.len() > 0 {
        lemma_group_cardinality(config, events.drop_last());
    }
}

/// Mismatch abort: an end tag that does not name the innermost open tag
/// aborts the scan with a structural mismatch, and nothing that follows it
/// changes that. No group is returned.
pub proof fn lemma_mismatch_aborts(
    config: ConfigModel,
    before: Seq<EventModel>,
    name: Seq<char>,
    after: Seq<EventModel>,
)
    requires
        scan(config, before) is Ok,
        !scan(config, before)->Ok_0.terminated,
        scan(config, before)->Ok_0.tag_hierarchy.len() > 0,
        scan(config, before)->Ok_0.tag_hierarchy.last() != name,
    ensures
        extract(config, before.push(EventModel::EndTag { name }) + after) == Err::<
            Seq<Seq<RecordModel>>,
            ReadErrorModel,
        >(
            ReadErrorModel::StructuralMismatch {
                tag_hierarchy: scan(config, before)->Ok_0.tag_hierarchy,
                tag_name: name,
            },
        ),
{
    let upto = before.push(EventModel::EndTag { name });
    let all = upto + after;
    assert(upto.drop_last() =~= before);
    assert(all.take(upto.len() as int) =~= upto);
    lemma_scan_error_stays(config, all, upto.len() as int);
}

/// A scan over tokens is a scan over events: from a state that some events
/// lead to, the tokens lead to a state that some events lead to, and where
/// they end in an error, it is the tokenizer's failure, a tag name that is
/// not valid UTF-8, or the error that some events end in.
pub proof fn lemma_token_scan_is_an_event_scan(
    config: ConfigModel,
    seen: Seq<EventModel>,
    s: ScanModel,
    tokens: Seq<RawTokenModel>,
)
    requires
        scan(config, seen) == Ok::<ScanModel, ReadErrorModel>(s),
    ensures
        scan_tokens(config, s, tokens) matches Ok(end) ==> exists|events: Seq<EventModel>|
            scan(config, events) == Ok::<ScanModel, ReadErrorModel>(end),
        scan_tokens(config, s, tokens) matches Err(e) ==> e is Tokenizer || e is TagNameEncoding
            || exists|events: Seq<EventModel>|
            scan(config, events) == Err::<ScanModel, ReadErrorModel>(e),
    decreases tokens.len(),
{
    if tokens.len() > 0 && !s.terminated {
        match token_reading(tokens[0], wants_text(config, s.tag_hierarchy)) {
            Err(e) => {},
            Ok(None) => {
                lemma_token_scan_is_an_event_scan(config, seen, s, tokens.skip(1));
            },
            Ok(Some(event)) => {
                let taken = seen.push(event);
                assert(taken.drop_last() =~= seen);
                match step(config, s, event) {
                    Err(e) => {
                        assert(scan(config, taken) == Err::<ScanModel, ReadErrorModel>(e));
                    },
                    Ok(next) => {
                        lemma_token_scan_is_an_event_scan(config, taken, next, tokens.skip(1));
                    },
                }
            },
        }
    }
}

/// What reading returns for the tokens of a document is what extraction
/// returns for some sequence of events, unless the tokenizer failed or a tag
/// name is not valid UTF-8.
pub proof fn lemma_read_outcome_is_an_extraction(config: ConfigModel, tokens: Seq<RawTokenModel>)
    ensures
        read_outcome(config, tokens) matches Ok(groups) ==> exists|events: Seq<EventModel>|
            extract(config, events) == Ok::<Seq<Seq<RecordModel>>, ReadErrorModel>(groups),
        read_outcome(config, tokens) matches Err(e) ==> e is Tokenizer || e is TagNameEncoding
            || exists|events: Seq<EventModel>|
            extract(config, events) == Err::<Seq<Seq<RecordModel>>, ReadErrorModel>(e),
{
    lemma_token_scan_is_an_event_scan(config, Seq::empty(), initial_scan(), tokens);
    match scan_tokens(config, initial_scan(), tokens) {
        Ok(end) => {
            let events = choose|events: Seq<EventModel>|
                scan(config, events) == Ok::<ScanModel, ReadErrorModel>(end);
            assert(extract(config, events) == Ok::<Seq<Seq<RecordModel>>, ReadErrorModel>(
                end.groups,
            ));
        },
        Err(e) => {
            if !(e is Tokenizer || e is TagNameEncoding) {
                let events = choose|events: Seq<EventModel>|
                    scan(config, events) == Err::<ScanModel, ReadErrorModel>(e);
                assert(extract(config, events) == Err::<Seq<Seq<RecordModel>>, ReadErrorModel>(
                    e,
                ));
            }
        },
    }
}

/// Path fidelity of reading: every record of every group that reading
/// returns is bound to a tag path that the configuration registers.
pub proof fn lemma_read_outcome_path_fidelity(config: ConfigModel, tokens: Seq<RawTokenModel>)
    ensures
        read_outcome(config, tokens) matches Ok(groups) ==> forall|g: int, r: int|
            0 <= g < groups.len() && 0 <= r < groups[g].len() ==> config.entries.contains_key(
                (#[trigger] groups[g][r]).tag_hierarchy,
            ),
{
    lemma_read_outcome_is_an_extraction(config, tokens);
    if let Ok(groups) = read_outcome(config, tokens) {
        let events = choose|events: Seq<EventModel>|
            extract(config, events) == Ok::<Seq<Seq<RecordModel>>, ReadErrorModel>(groups);
        lemma_path_fidelity(config, events);
    }
}

} // verus!
