use vstd::prelude::*;
use quick_xml::Reader;
use super::error::{ReadError, ReadErrorModel};
use super::hierarchy_tag_store::TagHierarchyStore;
use super::laws::lemma_read_outcome_path_fidelity;
use super::output_tag_value::{OutPutTagValue, RecordModel};
use super::scan::{
    extract, initial_scan, lemma_scan_error_stays, lemma_step_keeps_store_consistent,
    opened_path, read_outcome, scan, scan_tokens, step, store_is_consistent, token_step,
    wants_text, ScanModel,
};
use super::tokenizer::{is_final_token, next_token, token_event, tokens_of, RawToken};
use super::util::clone_tag_hierarchy;
use super::xml_event::{EventModel, XmlAttribute, XmlEvent};
use super::xml_read_config::XmlReadConfig;

verus! {

/// A scan in progress: the tag path tracked so far, the records of the open
/// tags, the group that is being filled and the groups that are sealed.
#[derive(Debug)]
pub struct XmlScanner {
    current_tag_hierarchy: Vec<String>,
    tag_store: TagHierarchyStore,
    out_put_value: Vec<OutPutTagValue>,
    out_put_values: Vec<Vec<OutPutTagValue>>,
    terminated: bool,
}

impl View for XmlScanner {
    type V = ScanModel;

    closed spec fn view(&self) -> ScanModel {
        ScanModel {
            tag_hierarchy: self.current_tag_hierarchy.deep_view(),
            store: self.tag_store@,
            pending: self.out_put_value.deep_view(),
            groups: self.out_put_values.deep_view(),
            terminated: self.terminated,
        }
    }
}

impl XmlScanner {
    /// The scanner's own data is in order, and so is the state it stands
    /// for.
    pub closed spec fn wf(&self) -> bool {
        self.tag_store.wf() && store_is_consistent(self@)
    }

    /// A scanner that has seen no event.
    pub fn new() -> (scanner: XmlScanner)
        ensures
            scanner.wf(),
            scanner@ == initial_scan(),
    {
        let scanner = XmlScanner {
            current_tag_hierarchy: Vec::new(),
            tag_store: TagHierarchyStore::new(),
            out_put_value: Vec::new(),
            out_put_values: Vec::new(),
            terminated: false,
        };
        assert(scanner@.tag_hierarchy =~= Seq::empty());
        assert(scanner@.pending =~= Seq::empty());
        assert(scanner@.groups =~= Seq::empty());
        scanner
    }

    /// Whether the end of the stream was seen.
    pub fn is_terminated(&self) -> (terminated: bool)
        ensures
            terminated == self@.terminated,
    {
        self.terminated
    }

    /// Whether the configuration asks for the text of the element that is
    /// open now.
    pub fn wants_text(&self, read_config: &XmlReadConfig) -> (wanted: bool)
        ensures
            wanted == wants_text(read_config@, self@.tag_hierarchy),
    {
        match read_config.lookup(&self.current_tag_hierarchy) {
            None => false,
            Some(config) => config.selects_text(),
        }
    }

    /// Takes one event. On success the scanner is in the state that the
    /// event leads to; when the event is refused the scanner stays as it was.
    pub fn handle_event(&mut self, read_config: &XmlReadConfig, event: &XmlEvent) -> (outcome:
        Result<(), ReadError>)
        requires
            old(self).wf(),
        ensures
            final(self).wf(),
            match step(read_config@, old(self)@, event@) {
                Ok(next) => outcome is Ok && final(self)@ == next,
                Err(e) => outcome is Err && outcome->Err_0@ == e && final(self)@ == old(self)@,
            },
    {
        proof {
            lemma_step_keeps_store_consistent(read_config@, self@, event@);
        }
        if self.terminated {
            return Ok(());
        }
        match event {
            XmlEvent::StartTag { name, attributes } => self.handle_start(
                read_config,
                name,
                attributes,
            ),
            XmlEvent::EndTag { name } => self.handle_end(read_config, name),
            XmlEvent::Text { content } => self.handle_text(read_config, content),
            XmlEvent::EndOfStream => {
                self.terminated = true;
                Ok(())
            },
            XmlEvent::Other => Ok(()),
        }
    }

    /// Takes one token of a tokenizer: decides what event it stands for, if
    /// any, and takes that event. When the token is refused the scanner
    /// stays as it was.
    pub fn handle_token(&mut self, read_config: &XmlReadConfig, token: RawToken) -> (outcome:
        Result<(), ReadError>)
        requires
            old(self).wf(),
        ensures
            final(self).wf(),
            match token_step(read_config@, old(self)@, token@) {
                Ok(next) => outcome is Ok && final(self)@ == next,
                Err(e) => outcome is Err && outcome->Err_0@ == e && final(self)@ == old(self)@,
            },
    {
        if self.terminated {
            return Ok(());
        }
        let wants_text = self.wants_text(read_config);
        match token_event(token, wants_text) {
            Err(e) => Err(e),
            Ok(None) => Ok(()),
            Ok(Some(event)) => self.handle_event(read_config, &event),
        }
    }

    /// The sealed groups, in document order. The group that is still being
    /// filled is dropped.
    pub fn finish(self) -> (groups: Vec<Vec<OutPutTagValue>>)
        ensures
            groups.deep_view() == self@.groups,
    {
        self.out_put_values
    }

    /// A start tag called `name` with the attributes `attributes`.
    fn handle_start(
        &mut self,
        read_config: &XmlReadConfig,
        name: &String,
        attributes: &Vec<XmlAttribute>,
    ) -> (outcome: Result<(), ReadError>)
        requires
            old(self).wf(),
            !old(self)@.terminated,
        ensures
            final(self).wf(),
            outcome is Ok,
            Ok::<ScanModel, ReadErrorModel>(final(self)@) == step(
                read_config@,
                old(self)@,
                EventModel::StartTag { name: name@, attributes: attributes.deep_view() },
            ),
    {
        let ghost event = EventModel::StartTag { name: name@, attributes: attributes.deep_view() };
        proof {
            lemma_step_keeps_store_consistent(read_config@, self@, event);
        }
        let n: usize = self.current_tag_hierarchy.len();
        if n == 0 || self.current_tag_hierarchy[n - 1] != *name {
            let ghost before = self.current_tag_hierarchy.deep_view();
            self.current_tag_hierarchy.push(name.clone());
            assert(self.current_tag_hierarchy.deep_view() =~= before.push(name@));
        }
        let ghost path = self.current_tag_hierarchy.deep_view();
        assert(path == opened_path(old(self)@.tag_hierarchy, name@));
        let outcome = match self.tag_store.get_mut(&self.current_tag_hierarchy) {
            Some(out_put_tag_value) => {
                out_put_tag_value.put_selected_tag_attribute_from_start_tag(
                    &self.current_tag_hierarchy,
                    read_config,
                    name,
                    attributes,
                )
            },
            None => Ok(()),
        };
        outcome
    }

    /// Text between tags.
    fn handle_text(&mut self, read_config: &XmlReadConfig, content: &String) -> (outcome: Result<
        (),
        ReadError,
    >)
        requires
            old(self).wf(),
            !old(self)@.terminated,
        ensures
            final(self).wf(),
            match step(read_config@, old(self)@, EventModel::Text { content: content@ }) {
                Ok(next) => outcome is Ok && final(self)@ == next,
                Err(e) => outcome is Err && outcome->Err_0@ == e && final(self)@ == old(self)@,
            },
    {
        let ghost event = EventModel::Text { content: content@ };
        proof {
            lemma_step_keeps_store_consistent(read_config@, self@, event);
        }
        if !self.wants_text(read_config) {
            return Ok(());
        }
        if self.current_tag_hierarchy.len() == 0 {
            return Err(ReadError::EmptyPath);
        }
        let outcome = match self.tag_store.get_mut(&self.current_tag_hierarchy) {
            Some(out_put_tag_value) => {
                out_put_tag_value.put_tag_text_value(&self.current_tag_hierarchy, content.clone())
            },
            None => Ok(()),
        };
        outcome
    }

    /// An end tag called `name`.
    fn handle_end(&mut self, read_config: &XmlReadConfig, name: &String) -> (outcome: Result<
        (),
        ReadError,
    >)
        requires
            old(self).wf(),
            !old(self)@.terminated,
        ensures
            final(self).wf(),
            match step(read_config@, old(self)@, EventModel::EndTag { name: name@ }) {
                Ok(next) => outcome is Ok && final(self)@ == next,
                Err(e) => outcome is Err && outcome->Err_0@ == e && final(self)@ == old(self)@,
            },
    {
        let ghost event = EventModel::EndTag { name: name@ };
        proof {
            lemma_step_keeps_store_consistent(read_config@, self@, event);
        }
        let n: usize = self.current_tag_hierarchy.len();
        if n == 0 {
            return Err(ReadError::EmptyPath);
        }
        if self.current_tag_hierarchy[n - 1] != *name {
            return Err(
                ReadError::StructuralMismatch {
                    tag_hierarchy: clone_tag_hierarchy(&self.current_tag_hierarchy),
                    tag_name: name.clone(),
                },
            );
        }
        if read_config.lookup(&self.current_tag_hierarchy).is_some() {
            match self.tag_store.remove(&self.current_tag_hierarchy) {
                Some(out_put_tag_value) => {
                    let ghost before = self.out_put_value.deep_view();
                    self.out_put_value.push(out_put_tag_value);
                    assert(self.out_put_value.deep_view() =~= before.push(out_put_tag_value@));
                },
                None => {
                    assert(self.tag_store@ =~= old(self).tag_store@);
                },
            }
        }
        if read_config.is_group_boundary(&self.current_tag_hierarchy) {
            let mut group: Vec<OutPutTagValue> = Vec::new();
            std::mem::swap(&mut group, &mut self.out_put_value);
            let ghost before = self.out_put_values.deep_view();
            self.out_put_values.push(group);
            assert(self.out_put_values.deep_view() =~= before.push(group.deep_view()));
            assert(self.out_put_value.deep_view() =~= Seq::empty());
        }
        let ghost before = self.current_tag_hierarchy.deep_view();
        self.current_tag_hierarchy.pop();
        assert(self.current_tag_hierarchy.deep_view() =~= before.drop_last());
        Ok(())
    }
}

/// Scans a whole sequence of events and returns the sealed groups, or the
/// error at which the scan was aborted. Events after the first end of stream
/// are not looked at.
pub fn read_events(events: &Vec<XmlEvent>, read_config: &XmlReadConfig) -> (outcome: Result<
    Vec<Vec<OutPutTagValue>>,
    ReadError,
>)
    ensures
        match extract(read_config@, events.deep_view()) {
            Ok(groups) => outcome is Ok && outcome->Ok_0.deep_view() == groups,
            Err(e) => outcome is Err && outcome->Err_0@ == e,
        },
{
    let mut scanner = XmlScanner::new();
    let ghost given = events.deep_view();
    let mut i: usize = 0;
    assert(given.take(0) =~= Seq::empty());
    while i < events.len()
        invariant
            i <= events@.len(),
            given == events.deep_view(),
            scanner.wf(),
            scan(read_config@, given.take(i as int)) == Ok::<ScanModel, ReadErrorModel>(
                scanner@,
            ),
        decreases events@.len() - i,
    {
        proof {
            assert(given.len() == events@.len());
            assert(given.take(i + 1).drop_last() =~= given.take(i as int));
            assert(given.take(i + 1).last() == events@[i as int]@);
        }
        match scanner.handle_event(read_config, &events[i]) {
            Err(e) => {
                proof {
                    lemma_scan_error_stays(read_config@, given, i + 1);
                }
                return Err(e);
            },
            Ok(()) => {},
        }
        i += 1;
    }
    assert(given.take(i as int) =~= given);
    Ok(scanner.finish())
}

/// Scans a document held in memory: takes from `reader` the tokens that it
/// still holds and lets the scan take each in turn, up to the end of the
/// document. What is returned is what [`read_outcome`] makes of those
/// tokens: the sealed groups, or the error at which the scan was aborted,
/// be it the scan's own, the tokenizer's failure, or a tag name that is not
/// valid UTF-8. Every record returned is bound to a path that the
/// configuration registers.
pub fn read_xml<'a>(reader: &mut Reader<&'a [u8]>, read_config: &XmlReadConfig) -> (outcome:
    Result<Vec<Vec<OutPutTagValue>>, ReadError>)
    ensures
        match read_outcome(read_config@, tokens_of(*old(reader))) {
            Ok(groups) => outcome is Ok && outcome->Ok_0.deep_view() == groups,
            Err(e) => outcome is Err && outcome->Err_0@ == e,
        },
        outcome matches Ok(groups) ==> forall|g: int, r: int|
            0 <= g < groups.deep_view().len() && 0 <= r < groups.deep_view()[g].len()
                ==> read_config@.entries.contains_key(
                (#[trigger] groups.deep_view()[g][r]).tag_hierarchy,
            ),
{
    let mut scanner = XmlScanner::new();
    let ghost all = tokens_of(*reader);
    loop
        invariant_except_break
            !scanner@.terminated,
        invariant
            scanner.wf(),
            all == tokens_of(*old(reader)),
            scan_tokens(read_config@, scanner@, tokens_of(*reader)) == scan_tokens(
                read_config@,
                initial_scan(),
                all,
            ),
        ensures
            scanner@.terminated,
        decreases tokens_of(*reader).len(),
    {
        let ghost held = tokens_of(*reader);
        let ghost before = scanner@;
        let token = next_token(reader);
        let ghost first = token@;
        match scanner.handle_token(read_config, token) {
            Err(e) => {
                assert(scan_tokens(read_config@, before, held) == Err::<
                    ScanModel,
                    ReadErrorModel,
                >(e@));
                return Err(e);
            },
            Ok(()) => {},
        }
        assert(scan_tokens(read_config@, before, held) == scan_tokens(
            read_config@,
            scanner@,
            held.skip(1),
        ));
        if scanner.is_terminated() {
            assert(scan_tokens(read_config@, scanner@, held.skip(1)) == scan_tokens(
                read_config@,
                scanner@,
                tokens_of(*reader),
            ));
            break ;
        }
        assert(!is_final_token(first));
    }
    let groups = scanner.finish();
    proof {
        assert(read_outcome(read_config@, all) == Ok::<Seq<Seq<RecordModel>>, ReadErrorModel>(
            groups.deep_view(),
        ));
        lemma_read_outcome_path_fidelity(read_config@, all);
        let sealed = read_outcome(read_config@, all)->Ok_0;
        let entries = read_config@.entries;
        assert forall|g: int, r: int|
            0 <= g < sealed.len() && 0 <= r < sealed[g].len() implies entries.contains_key(
            (#[trigger] groups.deep_view()[g][r]).tag_hierarchy,
        ) by {
            assert(sealed[g][r] == groups.deep_view()[g][r]);
        }
    }
    Ok(groups)
}

} // verus!
