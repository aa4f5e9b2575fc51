use vstd::prelude::*;
use super::error::ReadErrorModel;
use super::hierarchy_tag_store::fresh_record;
use super::output_tag_value::{put_attributes, put_text, RecordModel};
use super::tokenizer::{token_reading, RawTokenModel};
use super::xml_event::{AttributeModel, EventModel};
use super::xml_read_config::{text_selector, ConfigModel};

verus! {

/// The state of a scan between two events.
pub struct ScanModel {
    /// The names of the tags that are open, outermost first.
    pub tag_hierarchy: Seq<Seq<char>>,
    /// The records of the open tags, each under its tag path.
    pub store: Map<Seq<Seq<char>>, RecordModel>,
    /// The records closed since the last group was sealed.
    pub pending: Seq<RecordModel>,
    /// The sealed groups, in document order.
    pub groups: Seq<Seq<RecordModel>>,
    /// Whether the end of the stream was seen.
    pub terminated: bool,
}

/// The state of a scan that has seen no event.
pub open spec fn initial_scan() -> ScanModel {
    ScanModel {
        tag_hierarchy: Seq::empty(),
        store: Map::empty(),
        pending: Seq::empty(),
        groups: Seq::empty(),
        terminated: false,
    }
}

/// The tracked path after a tag called `name` opens: the name is appended
/// unless it repeats the innermost open tag's name.
pub open spec fn opened_path(tag_hierarchy: Seq<Seq<char>>, name: Seq<char>) -> Seq<Seq<char>> {
    if tag_hierarchy.len() > 0 && tag_hierarchy.last() == name {
        tag_hierarchy
    } else {
        tag_hierarchy.push(name)
    }
}

/// The record the store gives out for a path: the one it holds, or a fresh
/// one bound to the path.
pub open spec fn record_at(
    store: Map<Seq<Seq<char>>, RecordModel>,
    tag_hierarchy: Seq<Seq<char>>,
) -> RecordModel {
    if store.contains_key(tag_hierarchy) {
        store[tag_hierarchy]
    } else {
        fresh_record(tag_hierarchy)
    }
}

/// Whether the configuration asks for the text of the element at the path.
pub open spec fn wants_text(config: ConfigModel, tag_hierarchy: Seq<Seq<char>>) -> bool {
    config.entries.contains_key(tag_hierarchy) && config.entries[tag_hierarchy].contains(
        text_selector(),
    )
}

/// A start tag: the path grows, the record for the new path is fetched or
/// made, and the attributes that the configuration asks for are captured
/// into it.
pub open spec fn step_start(
    config: ConfigModel,
    s: ScanModel,
    name: Seq<char>,
    attributes: Seq<AttributeModel>,
) -> Result<ScanModel, ReadErrorModel> {
    let path = opened_path(s.tag_hierarchy, name);
    match put_attributes(record_at(s.store, path), path, config.entries.get(path), name, attributes) {
        Err(e) => Err(e),
        Ok(record) => Ok(
            ScanModel {
                tag_hierarchy: path,
                store: s.store.insert(path, record),
                pending: s.pending,
                groups: s.groups,
                terminated: s.terminated,
            },
        ),
    }
}

/// Text: captured into the record for the current path where the
/// configuration asks for it, and passed over otherwise.
pub open spec fn step_text(config: ConfigModel, s: ScanModel, content: Seq<char>) -> Result<
    ScanModel,
    ReadErrorModel,
> {
    if !wants_text(config, s.tag_hierarchy) {
        Ok(s)
    } else {
        match put_text(record_at(s.store, s.tag_hierarchy), s.tag_hierarchy, content) {
            Err(e) => Err(e),
            Ok(record) => Ok(
                ScanModel {
                    tag_hierarchy: s.tag_hierarchy,
                    store: s.store.insert(s.tag_hierarchy, record),
                    pending: s.pending,
                    groups: s.groups,
                    terminated: s.terminated,
                },
            ),
        }
    }
}

/// Whether an end tag called `name` closes the group-boundary element in
/// state `s`.
pub open spec fn closes_boundary(config: ConfigModel, s: ScanModel, name: Seq<char>) -> bool {
    &&& s.tag_hierarchy.len() > 0
    &&& s.tag_hierarchy.last() == name
    &&& s.tag_hierarchy == config.group
}

/// An end tag: it must name the innermost open tag. The record of a
/// configured path moves from the store to the pending group; closing the
/// group-boundary path seals the pending group; then the path shrinks.
pub open spec fn step_end(config: ConfigModel, s: ScanModel, name: Seq<char>) -> Result<
    ScanModel,
    ReadErrorModel,
> {
    if s.tag_hierarchy.len() == 0 {
        Err(ReadErrorModel::EmptyPath)
    } else if s.tag_hierarchy.last() != name {
        Err(ReadErrorModel::StructuralMismatch { tag_hierarchy: s.tag_hierarchy, tag_name: name })
    } else {
        let moves = config.entries.contains_key(s.tag_hierarchy) && s.store.contains_key(
            s.tag_hierarchy,
        );
        let pending = if moves {
            s.pending.push(s.store[s.tag_hierarchy])
        } else {
            s.pending
        };
        let store = if moves {
            s.store.remove(s.tag_hierarchy)
        } else {
            s.store
        };
        let seals = s.tag_hierarchy == config.group;
        Ok(
            ScanModel {
                tag_hierarchy: s.tag_hierarchy.drop_last(),
                store,
                pending: if seals {
                    Seq::empty()
                } else {
                    pending
                },
                groups: if seals {
                    s.groups.push(pending)
                } else {
                    s.groups
                },
                terminated: s.terminated,
            },
        )
    }
}

/// What one event does to the state of a scan. A scan that has seen the end
/// of the stream takes no further notice.
pub open spec fn step(config: ConfigModel, s: ScanModel, event: EventModel) -> Result<
    ScanModel,
    ReadErrorModel,
> {
    if s.terminated {
        Ok(s)
    } else {
        match event {
            EventModel::StartTag { name, attributes } => step_start(config, s, name, attributes),
            EventModel::EndTag { name } => step_end(config, s, name),
            EventModel::Text { content } => step_text(config, s, content),
            EventModel::EndOfStream => Ok(
                ScanModel {
                    tag_hierarchy: s.tag_hierarchy,
                    store: s.store,
                    pending: s.pending,
                    groups: s.groups,
                    terminated: true,
                },
            ),
            EventModel::Other => Ok(s),
        }
    }
}

/// The state after a whole sequence of events, from the first to the last,
/// or the error at which the scan was aborted.
pub open spec fn scan(config: ConfigModel, events: Seq<EventModel>) -> Result<
    ScanModel,
    ReadErrorModel,
>
    decreases events.len(),
{
    if events.len() == 0 {
        Ok(initial_scan())
    } else {
        match scan(config, events.drop_last()) {
            Err(e) => Err(e),
            Ok(s) => step(config, s, events.last()),
        }
    }
}

/// What extraction returns for a sequence of events: the groups that were
/// sealed. A group that is still pending at the end is dropped.
pub open spec fn extract(config: ConfigModel, events: Seq<EventModel>) -> Result<
    Seq<Seq<RecordModel>>,
    ReadErrorModel,
> {
    match scan(config, events) {
        Err(e) => Err(e),
        Ok(s) => Ok(s.groups),
    }
}

/// What one token of a tokenizer does to the state of a scan: the event that
/// the token stands for is taken, a token that stands for none is passed
/// over, and a token that cannot be read ends the scan. Whether text is
/// wanted is decided by the path that is open when the token arrives.
pub open spec fn token_step(config: ConfigModel, s: ScanModel, token: RawTokenModel) -> Result<
    ScanModel,
    ReadErrorModel,
> {
    if s.terminated {
        Ok(s)
    } else {
        match token_reading(token, wants_text(config, s.tag_hierarchy)) {
            Err(e) => Err(e),
            Ok(None) => Ok(s),
            Ok(Some(event)) => step(config, s, event),
        }
    }
}

/// The state that a scan in state `s` reaches over the tokens, from the
/// first to the last, or the error at which it was aborted. Once the end of
/// the stream is seen the remaining tokens are not looked at.
pub open spec fn scan_tokens(config: ConfigModel, s: ScanModel, tokens: Seq<RawTokenModel>) -> Result<
    ScanModel,
    ReadErrorModel,
>
    decreases tokens.len(),
{
    if tokens.len() == 0 || s.terminated {
        Ok(s)
    } else {
        match token_step(config, s, tokens[0]) {
            Err(e) => Err(e),
            Ok(next) => scan_tokens(config, next, tokens.skip(1)),
        }
    }
}

/// What reading returns for the tokens of a document: the groups that were
/// sealed, or the error at which the scan was aborted.
pub open spec fn read_outcome(config: ConfigModel, tokens: Seq<RawTokenModel>) -> Result<
    Seq<Seq<RecordModel>>,
    ReadErrorModel,
> {
    match scan_tokens(config, initial_scan(), tokens) {
        Err(e) => Err(e),
        Ok(s) => Ok(s.groups),
    }
}

/// What holds of the state of every scan: each record of the store is bound
/// to the path it is kept under, and no record is kept under the empty path.
pub open spec fn store_is_consistent(s: ScanModel) -> bool {
    forall|k: Seq<Seq<char>>| #[trigger]
        s.store.contains_key(k) ==> k.len() > 0 && s.store[k].tag_hierarchy == k
}

/// A start tag is never refused, and every event keeps the store
/// consistent.
pub proof fn lemma_step_keeps_store_consistent(config: ConfigModel, s: ScanModel, event: EventModel)
    requires
        store_is_consistent(s),
    ensures
        event is StartTag || event is Other || event is EndOfStream ==> step(config, s, event) is Ok,
        step(config, s, event) matches Ok(next) ==> store_is_consistent(next),
        step(config, s, event) matches Err(e) ==> e is EmptyPath || e is StructuralMismatch,
{
    if !s.terminated {
        match event {
            EventModel::StartTag { name, attributes } => {
                let path = opened_path(s.tag_hierarchy, name);
                assert(path.len() > 0 && path.last() == name);
                let record = record_at(s.store, path);
                assert(record.tag_hierarchy == path);
            },
            EventModel::Text { content } => {
                if wants_text(config, s.tag_hierarchy) {
                    let record = record_at(s.store, s.tag_hierarchy);
                    if s.tag_hierarchy.len() > 0 {
                        assert(record.tag_hierarchy == s.tag_hierarchy);
                    }
                }
            },
            _ => {},
        }
    }
}

/// Once a scan is aborted, further events do not revive it.
pub proof fn lemma_scan_error_stays(
    config: ConfigModel,
    events: Seq<EventModel>,
    n: int,
)
    requires
        0 <= n <= events.len(),
        scan(config, events.take(n)) is Err,
    ensures
        scan(config, events) == scan(config, events.take(n)),
    decreases events.len() - n,
{
    if n < events.len() {
        assert(events.take(n + 1).drop_last() =~= events.take(n));
        lemma_scan_error_stays(config, events, n + 1);
    } else {
        assert(events.take(n) =~= events);
    }
}

} // verus!
