//! Collecting the problems found in one request, and turning them into one
//! error that lists them field by field.

use crate::text::same_text;
use vstd::prelude::*;

verus! {

/// One problem found in one field of a request.
#[derive(Debug, PartialEq, Eq)]
pub struct ValidationIssue {
    pub field: String,
    pub message: String,
}

/// A `ValidationIssue` as contracts speak of it.
pub struct IssueView {
    pub field: Seq<char>,
    pub message: Seq<char>,
}

impl View for ValidationIssue {
    type V = IssueView;

    open spec fn view(&self) -> IssueView {
        IssueView { field: self.field@, message: self.message@ }
    }
}

/// The messages recorded for one field, in the order in which they came.
#[derive(Debug, PartialEq, Eq)]
pub struct FieldErrors {
    pub field: String,
    pub messages: Vec<String>,
}

/// A `FieldErrors` as contracts speak of it.
pub struct FieldErrorsView {
    pub field: Seq<char>,
    pub messages: Seq<Seq<char>>,
}

impl View for FieldErrors {
    type V = FieldErrorsView;

    open spec fn view(&self) -> FieldErrorsView {
        FieldErrorsView { field: self.field@, messages: self.messages.deep_view() }
    }
}

/// The messages of the issues of `field`, in order.
pub open spec fn messages_for(issues: Seq<IssueView>, field: Seq<char>) -> Seq<Seq<char>>
    decreases issues.len(),
{
    if issues.len() == 0 {
        Seq::empty()
    } else if issues.last().field == field {
        messages_for(issues.drop_last(), field).push(issues.last().message)
    } else {
        messages_for(issues.drop_last(), field)
    }
}

/// The fields that `issues` name, each once, in the order in which they
/// first occur.
pub open spec fn fields_named(issues: Seq<IssueView>) -> Seq<Seq<char>>
    decreases issues.len(),
{
    if issues.len() == 0 {
        Seq::empty()
    } else if fields_named(issues.drop_last()).contains(issues.last().field) {
        fields_named(issues.drop_last())
    } else {
        fields_named(issues.drop_last()).push(issues.last().field)
    }
}

/// The issues field by field: one entry for each field named, in the order
/// of first occurrence, holding all the messages of that field in order.
pub open spec fn grouped(issues: Seq<IssueView>) -> Seq<FieldErrorsView> {
    Seq::new(
        fields_named(issues).len(),
        |k: int|
            FieldErrorsView {
                field: fields_named(issues)[k],
                messages: messages_for(issues, fields_named(issues)[k]),
            },
    )
}

/// The entries of an error as contracts speak of them.
pub open spec fn entries_view(entries: Seq<FieldErrors>) -> Seq<FieldErrorsView> {
    Seq::new(entries.len(), |i: int| entries[i]@)
}

/// The grouped form with one more issue: its message joins the entry of its
/// field, or opens a new last entry.
pub open spec fn grouped_with(groups: Seq<FieldErrorsView>, issue: IssueView) -> Seq<
    FieldErrorsView,
> {
    if exists|k: int| 0 <= k < groups.len() && groups[k].field == issue.field {
        let k = choose|k: int| 0 <= k < groups.len() && groups[k].field == issue.field;
        groups.update(
            k,
            FieldErrorsView { field: issue.field, messages: groups[k].messages.push(issue.message) },
        )
    } else {
        groups.push(FieldErrorsView { field: issue.field, messages: seq![issue.message] })
    }
}

/// Whether no two entries are about the same field.
pub open spec fn fields_distinct(groups: Seq<FieldErrorsView>) -> bool {
    forall|j: int, k: int|
        0 <= j < groups.len() && 0 <= k < groups.len() && j != k ==> (#[trigger] groups[j]).field != (
        #[trigger] groups[k]).field
}

/// Where entry `k` is the one about the issue's field, the message joins it.
proof fn lemma_grouped_with_known(groups: Seq<FieldErrorsView>, issue: IssueView, k: int)
    requires
        fields_distinct(groups),
        0 <= k < groups.len(),
        groups[k].field == issue.field,
    ensures
        grouped_with(groups, issue) == groups.update(
            k,
            FieldErrorsView { field: issue.field, messages: groups[k].messages.push(issue.message) },
        ),
{
    let c = choose|c: int| 0 <= c < groups.len() && groups[c].field == issue.field;
    assert(groups[c].field == groups[k].field);
    assert(c == k);
}

/// Where no entry is about the issue's field, a new last entry holds it.
proof fn lemma_grouped_with_new(groups: Seq<FieldErrorsView>, issue: IssueView)
    requires
        forall|k: int| 0 <= k < groups.len() ==> (#[trigger] groups[k]).field != issue.field,
    ensures
        grouped_with(groups, issue) == groups.push(
            FieldErrorsView { field: issue.field, messages: seq![issue.message] },
        ),
{
}

/// Whether `groups` can be what an error holds: at least one entry, one
/// entry for each field, and at least one message in each entry.
pub open spec fn well_grouped(groups: Seq<FieldErrorsView>) -> bool {
    &&& groups.len() > 0
    &&& fields_distinct(groups)
    &&& forall|k: int| 0 <= k < groups.len() ==> (#[trigger] groups[k]).messages.len() > 0
}

/// The grouped form has one entry for each field, and each entry holds a
/// message; where there is an issue, there is an entry.
pub proof fn lemma_well_grouped(issues: Seq<IssueView>)
    ensures
        fields_distinct(grouped(issues)),
        forall|k: int|
            0 <= k < grouped(issues).len() ==> (#[trigger] grouped(issues)[k]).messages.len() > 0,
        issues.len() > 0 ==> well_grouped(grouped(issues)),
{
    lemma_fields_named_distinct(issues);
    assert forall|j: int, k: int|
        0 <= j < grouped(issues).len() && 0 <= k < grouped(issues).len() && j != k implies (
    #[trigger] grouped(issues)[j]).field != (#[trigger] grouped(issues)[k]).field by {
        assert(fields_named(issues)[j] != fields_named(issues)[k]);
    }
    assert forall|k: int| 0 <= k < grouped(issues).len() implies (#[trigger] grouped(
        issues,
    )[k]).messages.len() > 0 by {
        lemma_fields_named_cover(issues, fields_named(issues)[k]);
    }
    if issues.len() > 0 {
        lemma_fields_named_cover(issues, issues[0].field);
    }
}

/// No field is named twice.
pub proof fn lemma_fields_named_distinct(issues: Seq<IssueView>)
    ensures
        fields_named(issues).no_duplicates(),
    decreases issues.len(),
{
    if issues.len() > 0 {
        lemma_fields_named_distinct(issues.drop_last());
    }
}

/// A field is named exactly when some issue is about it, and a field that is
/// not named has no messages.
pub proof fn lemma_fields_named_cover(issues: Seq<IssueView>, field: Seq<char>)
    ensures
        fields_named(issues).contains(field) <==> exists|i: int|
            0 <= i < issues.len() && (#[trigger] issues[i]).field == field,
        !fields_named(issues).contains(field) ==> messages_for(issues, field).len() == 0,
        fields_named(issues).contains(field) ==> messages_for(issues, field).len() > 0,
    decreases issues.len(),
{
    if issues.len() > 0 {
        let rest = issues.drop_last();
        lemma_fields_named_cover(rest, field);
        let named = fields_named(rest);
        if named.contains(issues.last().field) {
        } else {
            assert(named.push(issues.last().field).last() == issues.last().field);
            assert(forall|k: int|
                0 <= k < named.len() ==> named.push(issues.last().field)[k] == named[k]);
        }
        if fields_named(issues).contains(field) {
            if issues.last().field == field {
                assert(issues[issues.len() - 1].field == field);
            } else {
                assert(named.contains(field));
                let i = choose|i: int| 0 <= i < rest.len() && (#[trigger] rest[i]).field == field;
                assert(issues[i].field == field);
            }
        }
        if exists|i: int| 0 <= i < issues.len() && (#[trigger] issues[i]).field == field {
            let i = choose|i: int| 0 <= i < issues.len() && (#[trigger] issues[i]).field == field;
            if i < issues.len() - 1 {
                assert(rest[i].field == field);
            }
        }
    }
}

/// The messages of a field hold the message of each issue about it.
pub proof fn lemma_messages_for_holds(issues: Seq<IssueView>, at: int)
    requires
        0 <= at < issues.len(),
    ensures
        messages_for(issues, issues[at].field).contains(issues[at].message),
    decreases issues.len(),
{
    let field = issues[at].field;
    let rest = issues.drop_last();
    if at == issues.len() - 1 {
        let all = messages_for(rest, field).push(issues[at].message);
        assert(all[all.len() - 1] == issues[at].message);
    } else {
        lemma_messages_for_holds(rest, at);
        let before = messages_for(rest, field);
        let k = choose|k: int| 0 <= k < before.len() && before[k] == rest[at].message;
        if issues.last().field == field {
            assert(before.push(issues.last().message)[k] == issues[at].message);
        }
    }
}

/// Nothing is lost in grouping: for each issue, the entry of its field is
/// there and holds its message.
pub proof fn lemma_grouped_holds(issues: Seq<IssueView>, at: int)
    requires
        0 <= at < issues.len(),
    ensures
        exists|k: int|
            0 <= k < grouped(issues).len() && (#[trigger] grouped(issues)[k]).field
                == issues[at].field && grouped(issues)[k].messages.contains(issues[at].message),
{
    let field = issues[at].field;
    lemma_fields_named_cover(issues, field);
    lemma_messages_for_holds(issues, at);
    let k = choose|k: int| 0 <= k < fields_named(issues).len() && fields_named(issues)[k] == field;
    assert(grouped(issues)[k].field == field);
}

/// Grouping goes issue by issue: the grouped form of a longer list is that of
/// the shorter one with the last issue added.
pub proof fn lemma_grouped_step(issues: Seq<IssueView>)
    requires
        issues.len() > 0,
    ensures
        grouped(issues) == grouped_with(grouped(issues.drop_last()), issues.last()),
{
    let rest = issues.drop_last();
    let last = issues.last();
    let named = fields_named(rest);
    let groups = grouped(rest);
    lemma_fields_named_distinct(rest);
    lemma_fields_named_distinct(issues);
    if named.contains(last.field) {
        let j = choose|j: int| 0 <= j < named.len() && named[j] == last.field;
        assert(groups[j].field == last.field);
        let k = choose|k: int| 0 <= k < groups.len() && groups[k].field == last.field;
        assert(named[k] == named[j]);
        assert(k == j);
        assert(grouped(issues) =~= grouped_with(groups, last));
    } else {
        lemma_fields_named_cover(rest, last.field);
        assert(forall|k: int| 0 <= k < groups.len() ==> groups[k].field == named[k]);
        assert(!exists|k: int| 0 <= k < groups.len() && groups[k].field == last.field) by {
            if exists|k: int| 0 <= k < groups.len() && groups[k].field == last.field {
                let k = choose|k: int| 0 <= k < groups.len() && groups[k].field == last.field;
                assert(named[k] == last.field);
            }
        }
        assert(messages_for(rest, last.field) =~= Seq::empty());
        assert(grouped(issues) =~= grouped_with(groups, last));
    }
}

/// The issues of one request, in the order in which they were recorded.
#[derive(Debug, PartialEq, Eq)]
pub struct ValidationReport {
    issues: Vec<ValidationIssue>,
}

impl View for ValidationReport {
    type V = Seq<IssueView>;

    closed spec fn view(&self) -> Seq<IssueView> {
        Seq::new(self.issues@.len(), |i: int| self.issues@[i]@)
    }
}

/// All the issues of one request as one error, field by field.
#[derive(Debug, PartialEq, Eq)]
pub struct ValidationError {
    entries: Vec<FieldErrors>,
}

impl View for ValidationError {
    type V = Seq<FieldErrorsView>;

    closed spec fn view(&self) -> Seq<FieldErrorsView> {
        Seq::new(self.entries@.len(), |i: int| self.entries@[i]@)
    }
}

impl ValidationReport {
    /// A report without issues.
    pub fn new() -> (r: ValidationReport)
        ensures
            r@ == Seq::<IssueView>::empty(),
    {
        ValidationReport { issues: Vec::new() }
    }

    /// Records one issue after those already there.
    pub fn append(&mut self, field: &str, message: &str)
        ensures
            final(self)@ == old(self)@.push(IssueView { field: field@, message: message@ }),
    {
        self.issues.push(
            ValidationIssue { field: field.to_owned(), message: message.to_owned() },
        );
    }

    /// Whether no issue was recorded.
    pub fn is_empty(&self) -> (b: bool)
        ensures
            b == (self@.len() == 0),
    {
        self.issues.len() == 0
    }

    /// The number of issues recorded.
    pub fn len(&self) -> (n: usize)
        ensures
            n == self@.len(),
    {
        self.issues.len()
    }

    /// Turns the issues into one error that lists them field by field. It is
    /// for a report that holds at least one issue.
    pub fn into_error(self) -> (e: ValidationError)
        requires
            self@.len() > 0,
        ensures
            e@ == grouped(self@),
            well_grouped(e@),
    {
        let mut entries: Vec<FieldErrors> = Vec::new();
        let mut i: usize = 0;
        while i < self.issues.len()
            invariant
                i <= self.issues.len(),
                entries_view(entries@) == grouped(self@.take(i as int)),
            decreases self.issues.len() - i,
        {
            let issue = &self.issues[i];
            proof {
                assert(self@.take(i + 1).drop_last() == self@.take(i as int));
                assert(self@.take(i + 1).last() == issue@);
                lemma_grouped_step(self@.take(i + 1));
            }
            match find_entry(&entries, issue.field.as_str()) {
                Some(k) => {
                    let ghost before = entries@;
                    entries[k].messages.push(issue.message.clone());
                    proof {
                        lemma_well_grouped(self@.take(i as int));
                        lemma_grouped_with_known(entries_view(before), issue@, k as int);
                        assert(entries@[k as int].messages.deep_view() =~= before[k as int].messages.deep_view().push(
                            issue.message@,
                        ));
                        assert(entries_view(entries@) =~= grouped_with(
                            entries_view(before),
                            issue@,
                        ));
                    }
                },
                None => {
                    let ghost before = entries@;
                    let mut messages: Vec<String> = Vec::new();
                    messages.push(issue.message.clone());
                    entries.push(FieldErrors { field: issue.field.clone(), messages });
                    proof {
                        lemma_grouped_with_new(entries_view(before), issue@);
                        assert(messages.deep_view() =~= seq![issue.message@]);
                        assert(entries_view(entries@) =~= grouped_with(
                            entries_view(before),
                            issue@,
                        ));
                    }
                },
            }
            i = i + 1;
        }
        proof {
            assert(self@.take(i as int) == self@);
            lemma_well_grouped(self@);
        }
        ValidationError { entries }
    }

    /// The issues in the order in which they were recorded.
    pub fn issues(&self) -> (v: &Vec<ValidationIssue>)
        ensures
            v@.len() == self@.len(),
            forall|i: int| 0 <= i < v@.len() ==> (#[trigger] v@[i])@ == self@[i],
    {
        &self.issues
    }
}

/// Finds the entry of `field`, if there is one.
fn find_entry(entries: &Vec<FieldErrors>, field: &str) -> (found: Option<usize>)
    ensures
        match found {
            Some(k) => k < entries@.len() && entries@[k as int].field@ == field@,
            None => forall|k: int| 0 <= k < entries@.len() ==> entries@[k].field@ != field@,
        },
{
    let mut k: usize = 0;
    while k < entries.len()
        invariant
            k <= entries@.len(),
            forall|j: int| 0 <= j < k ==> entries@[j].field@ != field@,
        decreases entries@.len() - k,
    {
        if same_text(entries[k].field.as_str(), field) {
            return Some(k);
        }
        k = k + 1;
    }
    None
}

impl ValidationError {
    /// What holds of every error: it is about at least one field, has one
    /// entry for each field, and each entry holds at least one message.
    #[verifier::type_invariant]
    spec fn well_formed(&self) -> bool {
        well_grouped(self@)
    }

    /// The messages about `field`, in order; `None` where the error says
    /// nothing of that field.
    pub fn messages_of(&self, field: &str) -> (found: Option<&Vec<String>>)
        ensures
            match found {
                Some(messages) => messages@.len() > 0 && exists|k: int|
                    0 <= k < self@.len() && (#[trigger] self@[k]).field == field@ && self@[k].messages
                        == messages.deep_view(),
                None => forall|k: int| 0 <= k < self@.len() ==> (#[trigger] self@[k]).field != field@,
            },
    {
        proof {
            use_type_invariant(self);
        }
        match find_entry(&self.entries, field) {
            Some(k) => {
                assert(self@[k as int].field == field@);
                Some(&self.entries[k].messages)
            },
            None => None,
        }
    }

    /// The entries, one for each field, in the order in which the fields
    /// first occurred.
    pub fn entries(&self) -> (v: &Vec<FieldErrors>)
        ensures
            entries_view(v@) == self@,
            well_grouped(self@),
    {
        proof {
            use_type_invariant(self);
        }
        &self.entries
    }
}

} // verus!
