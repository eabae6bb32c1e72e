//! The numbered citation ledger.
//!
//! A tool registers the evidence it surfaces and gets a number back, the
//! tool's own output shows the model that number, and the `[N]` markers in the
//! run's final text decide which citables are stored. Evidence that the model
//! never cites leaves no trace.

use crate::outside;
use crate::text;
use vstd::prelude::*;

verus! {

/// What a citation points at.
#[derive(Debug, Clone, Copy, PartialEq, Eq, Structural)]
pub enum CitationSource {
    /// An atom, by its id.
    Atom,
    /// A wiki article, by the id of the tag it belongs to.
    Wiki,
    /// A report finding, by the id of the finding's atom.
    Finding,
}

impl CitationSource {
    /// The name of the kind in storage and on the wire.
    pub fn as_str(self) -> (name: &'static str)
        ensures
            name@ == (match self {
                CitationSource::Atom => "atom"@,
                CitationSource::Wiki => "wiki"@,
                CitationSource::Finding => "finding"@,
            }),
    {
        match self {
            CitationSource::Atom => "atom",
            CitationSource::Wiki => "wiki",
            CitationSource::Finding => "finding",
        }
    }
}

/// One numbered piece of evidence that the model was shown and may cite.
#[derive(Debug, PartialEq)]
pub struct Citable {
    /// The `[N]` that cites this.
    pub number: i32,
    pub source: CitationSource,
    /// The id of the cited thing, read as its source says.
    pub source_id: String,
    /// Which chunk of the source matched, where the tool knows.
    pub chunk_index: Option<i32>,
    pub excerpt: String,
}

/// A piece of evidence.
pub struct CitableView {
    pub number: i32,
    pub source: CitationSource,
    pub source_id: Seq<char>,
    pub chunk_index: Option<i32>,
    pub excerpt: Seq<char>,
}

impl View for Citable {
    type V = CitableView;

    open spec fn view(&self) -> CitableView {
        CitableView {
            number: self.number,
            source: self.source,
            source_id: self.source_id@,
            chunk_index: self.chunk_index,
            excerpt: self.excerpt@,
        }
    }
}

impl Clone for Citable {
    fn clone(&self) -> (copy: Self)
        ensures
            copy@ == self@,
    {
        Citable {
            number: self.number,
            source: self.source,
            source_id: self.source_id.clone(),
            chunk_index: self.chunk_index,
            excerpt: self.excerpt.clone(),
        }
    }
}

/// The views of a list of citables.
pub open spec fn citables_view(list: Seq<Citable>) -> Seq<CitableView> {
    Seq::new(list.len(), |i: int| list[i]@)
}

impl CitableView {
    /// Whether this is the evidence that a source is.
    pub open spec fn is(self, source: CitationSource, source_id: Seq<char>) -> bool {
        self.source == source && self.source_id == source_id
    }
}

/// Whether tools may mint new numbers while a run is in flight.
#[derive(Debug, Clone, Copy, PartialEq, Eq, Structural)]
pub enum CitationAdmission {
    /// Anything a tool surfaces becomes citable.
    Open,
    /// Only evidence seeded before the run starts is citable. What else tools
    /// surface is background that the model can read and not cite.
    SeededOnly,
}

/// The place of a source in the ledger, or the ledger's length where it is not
/// in it.
pub open spec fn place_of(
    items: Seq<CitableView>,
    source: CitationSource,
    source_id: Seq<char>,
) -> int
    decreases items.len(),
{
    if items.len() == 0 {
        0
    } else if items[0].is(source, source_id) {
        0
    } else {
        1 + place_of(items.skip(1), source, source_id)
    }
}

proof fn lemma_place_of(
    items: Seq<CitableView>,
    source: CitationSource,
    source_id: Seq<char>,
    at: int,
)
    requires
        0 <= at <= items.len(),
        forall|i: int| 0 <= i < at ==> !(#[trigger] items[i]).is(source, source_id),
        at < items.len() ==> items[at].is(source, source_id),
    ensures
        place_of(items, source, source_id) == at,
    decreases items.len(),
{
    if at > 0 {
        lemma_place_of(items.skip(1), source, source_id, at - 1);
    }
}

/// What `place_of` promises.
pub proof fn lemma_place_bounds(
    items: Seq<CitableView>,
    source: CitationSource,
    source_id: Seq<char>,
)
    ensures
        0 <= place_of(items, source, source_id) <= items.len(),
        place_of(items, source, source_id) < items.len() ==> items[place_of(
            items,
            source,
            source_id,
        )].is(source, source_id),
        place_of(items, source, source_id) == items.len() ==> forall|i: int|
            0 <= i < items.len() ==> !(#[trigger] items[i]).is(source, source_id),
    decreases items.len(),
{
    if items.len() > 0 && !items[0].is(source, source_id) {
        let rest = items.skip(1);
        lemma_place_bounds(rest, source, source_id);
        assert forall|i: int|
            place_of(items, source, source_id) == items.len() && 0 <= i
                < items.len() implies !(#[trigger] items[i]).is(source, source_id) by {
            if i > 0 {
                assert(rest[i - 1] == items[i]);
            }
        }
    }
}

/// Whether a ledger numbers its evidence from one on, in order, and holds no
/// source twice.
pub open spec fn is_ledger(items: Seq<CitableView>) -> bool {
    &&& items.len() < i32::MAX
    &&& forall|i: int| 0 <= i < items.len() ==> (#[trigger] items[i]).number == i + 1
    &&& forall|i: int, j: int|
        0 <= i < j < items.len() ==> !(#[trigger] items[i]).is(
            (#[trigger] items[j]).source,
            items[j].source_id,
        )
}

/// What registering a source does to a ledger, and the number that it gets.
/// The first sighting of a source stays.
pub open spec fn registered(
    items: Seq<CitableView>,
    admits: bool,
    source: CitationSource,
    source_id: Seq<char>,
    chunk_index: Option<i32>,
    excerpt: Seq<char>,
) -> (Seq<CitableView>, Option<i32>) {
    let place = place_of(items, source, source_id);
    if place < items.len() {
        (items, Some(items[place].number))
    } else if admits {
        let number = (items.len() + 1) as i32;
        (
            items.push(CitableView { number, source, source_id, chunk_index, excerpt }),
            Some(number),
        )
    } else {
        (items, None)
    }
}

/// The citables that `numbers` name, in the order in which they are first
/// named. A number that names nothing is dropped.
pub open spec fn resolved(items: Seq<CitableView>, numbers: Seq<i32>) -> Seq<CitableView>
    decreases numbers.len(),
{
    if numbers.len() == 0 {
        Seq::empty()
    } else {
        let before = resolved(items, numbers.drop_last());
        let number = numbers.last();
        if 1 <= number <= items.len() && !numbers.drop_last().contains(number) {
            before.push(items[number - 1])
        } else {
            before
        }
    }
}

/// The run's citable evidence.
pub struct CitationLedger {
    admission: CitationAdmission,
    items: Vec<Citable>,
}

impl View for CitationLedger {
    type V = Seq<CitableView>;

    closed spec fn view(&self) -> Seq<CitableView> {
        citables_view(self.items@)
    }
}

impl CitationLedger {
    /// Who may mint numbers.
    pub closed spec fn admission(&self) -> CitationAdmission {
        self.admission
    }

    pub open spec fn well_formed(&self) -> bool {
        is_ledger(self@)
    }

    /// Whether a number is left for one more source.
    pub open spec fn has_room(&self) -> bool {
        self@.len() + 1 < i32::MAX
    }

    pub fn new(admission: CitationAdmission) -> (ledger: CitationLedger)
        ensures
            ledger.well_formed(),
            ledger.admission() == admission,
            ledger@ == Seq::<CitableView>::empty(),
    {
        let ledger = CitationLedger { admission, items: Vec::new() };
        assert(ledger@ =~= Seq::<CitableView>::empty());
        ledger
    }

    /// Numbers a piece of evidence up front, whatever the admission: the
    /// source list that a run may cite from the start.
    pub fn seed(
        &mut self,
        source: CitationSource,
        source_id: &str,
        chunk_index: Option<i32>,
        excerpt: &str,
    ) -> (number: i32)
        requires
            old(self).well_formed(),
            old(self).has_room() || place_of(old(self)@, source, source_id@) < old(self)@.len(),
        ensures
            final(self).well_formed(),
            final(self).admission() == old(self).admission(),
            (final(self)@, Some(number)) == registered(
                old(self)@,
                true,
                source,
                source_id@,
                chunk_index,
                excerpt@,
            ),
    {
        match self.insert(source, source_id, chunk_index, excerpt, true) {
            Some(number) => number,
            None => 0,
        }
    }

    /// Numbers evidence that a tool just surfaced. A source that was seen
    /// before keeps its number. `None` means that the run admits no new
    /// evidence, and the tool must present it as background.
    pub fn register(
        &mut self,
        source: CitationSource,
        source_id: &str,
        chunk_index: Option<i32>,
        excerpt: &str,
    ) -> (number: Option<i32>)
        requires
            old(self).well_formed(),
            old(self).has_room() || old(self).admission() != CitationAdmission::Open || place_of(
                old(self)@,
                source,
                source_id@,
            ) < old(self)@.len(),
        ensures
            final(self).well_formed(),
            final(self).admission() == old(self).admission(),
            (final(self)@, number) == registered(
                old(self)@,
                old(self).admission() == CitationAdmission::Open,
                source,
                source_id@,
                chunk_index,
                excerpt@,
            ),
    {
        let admits = self.admission == CitationAdmission::Open;
        self.insert(source, source_id, chunk_index, excerpt, admits)
    }

    fn insert(
        &mut self,
        source: CitationSource,
        source_id: &str,
        chunk_index: Option<i32>,
        excerpt: &str,
        admits: bool,
    ) -> (number: Option<i32>)
        requires
            old(self).well_formed(),
            old(self).has_room() || !admits || place_of(old(self)@, source, source_id@) < old(
                self,
            )@.len(),
        ensures
            final(self).well_formed(),
            final(self).admission() == old(self).admission(),
            (final(self)@, number) == registered(
                old(self)@,
                admits,
                source,
                source_id@,
                chunk_index,
                excerpt@,
            ),
    {
        let ghost before = self@;
        let mut at: usize = 0;
        while at < self.items.len()
            invariant
                at <= self.items.len(),
                self.well_formed(),
                *self == *old(self),
                before == self@,
                forall|i: int| 0 <= i < at ==> !(#[trigger] before[i]).is(source, source_id@),
            decreases self.items.len() - at,
        {
            assert(before[at as int] == self.items@[at as int]@);
            if self.items[at].source == source && text::same_text(
                self.items[at].source_id.as_str(),
                source_id,
            ) {
                proof {
                    lemma_place_of(before, source, source_id@, at as int);
                }
                return Some(self.items[at].number);
            }
            at = at + 1;
        }
        proof {
            lemma_place_of(before, source, source_id@, at as int);
        }
        if !admits {
            return None;
        }
        let number: i32 = self.items.len() as i32 + 1;
        let citable = Citable {
            number,
            source,
            source_id: source_id.to_owned(),
            chunk_index,
            excerpt: excerpt.to_owned(),
        };
        self.items.push(citable);
        assert(self@ =~= before.push(citable@));
        Some(number)
    }

    /// The citables that `numbers` name, in the order in which they are first
    /// named. Numbers that name nothing are dropped.
    pub fn resolve(&self, numbers: &[i32]) -> (cited: Vec<Citable>)
        requires
            self.well_formed(),
        ensures
            citables_view(cited@) == resolved(self@, numbers@),
    {
        let mut cited: Vec<Citable> = Vec::new();
        let mut at: usize = 0;
        assert(numbers@.take(0) =~= Seq::empty());
        assert(citables_view(cited@) =~= Seq::empty());
        while at < numbers.len()
            invariant
                at <= numbers@.len(),
                self.well_formed(),
                citables_view(cited@) == resolved(self@, numbers@.take(at as int)),
            decreases numbers@.len() - at,
        {
            let number: i32 = numbers[at];
            let seen = CitationLedger::names(numbers, at, number);
            let ghost before = cited@;
            proof {
                assert(numbers@.take(at + 1).drop_last() =~= numbers@.take(at as int));
            }
            if !seen && number >= 1 && number as usize <= self.items.len() {
                let place: usize = number as usize - 1;
                cited.push(self.items[place].clone());
                proof {
                    assert(self@[place as int] == self.items@[place as int]@);
                    assert(citables_view(cited@) =~= citables_view(before).push(
                        self@[place as int],
                    ));
                }
            }
            at = at + 1;
        }
        assert(numbers@.take(at as int) =~= numbers@);
        cited
    }

    fn names(numbers: &[i32], end: usize, number: i32) -> (found: bool)
        requires
            end <= numbers@.len(),
        ensures
            found == numbers@.take(end as int).contains(number),
    {
        let mut at: usize = 0;
        while at < end
            invariant
                at <= end <= numbers@.len(),
                forall|i: int| 0 <= i < at ==> numbers@[i] != number,
            decreases end - at,
        {
            if numbers[at] == number {
                assert(numbers@.take(end as int)[at as int] == number);
                return true;
            }
            at = at + 1;
        }
        false
    }

    /// Everything registered so far, by number.
    pub fn snapshot(&self) -> (all: Vec<Citable>)
        ensures
            citables_view(all@) == self@,
    {
        let mut all: Vec<Citable> = Vec::new();
        let mut at: usize = 0;
        while at < self.items.len()
            invariant
                at <= self.items.len(),
                all@.len() == at,
                forall|i: int| 0 <= i < at ==> (#[trigger] all@[i])@ == self.items@[i]@,
            decreases self.items.len() - at,
        {
            all.push(self.items[at].clone());
            at = at + 1;
        }
        assert(citables_view(all@) =~= self@);
        all
    }
}

/// A ledger only ever grows, its evidence keeps its numbers, and it stays a
/// ledger.
pub proof fn lemma_ledger_only_grows(
    items: Seq<CitableView>,
    admits: bool,
    source: CitationSource,
    source_id: Seq<char>,
    chunk_index: Option<i32>,
    excerpt: Seq<char>,
)
    requires
        is_ledger(items),
        items.len() + 1 < i32::MAX,
    ensures
        ({
            let (after, number) = registered(items, admits, source, source_id, chunk_index, excerpt);
            &&& is_ledger(after)
            &&& items.len() <= after.len() <= items.len() + 1
            &&& after.take(items.len() as int) == items
            &&& number matches Some(number) ==> 1 <= number <= after.len() && after[number - 1].is(
                source,
                source_id,
            )
        }),
{
    lemma_place_bounds(items, source, source_id);
    let (after, number) = registered(items, admits, source, source_id, chunk_index, excerpt);
    assert(after.take(items.len() as int) =~= items);
    if after.len() > items.len() {
        assert forall|i: int, j: int| 0 <= i < j < after.len() implies !(#[trigger] after[i]).is(
            (#[trigger] after[j]).source,
            after[j].source_id,
        ) by {
            if j == items.len() {
                assert(after[i] == items[i]);
            }
        }
    }
}

/// A source that has a number keeps it: registering it again changes nothing
/// and gives the same number, whatever comes with it and whoever may mint.
pub proof fn lemma_same_source_same_number(
    items: Seq<CitableView>,
    first: bool,
    again: bool,
    source: CitationSource,
    source_id: Seq<char>,
    chunk_index: Option<i32>,
    excerpt: Seq<char>,
    later_index: Option<i32>,
    later_excerpt: Seq<char>,
)
    requires
        is_ledger(items),
        items.len() + 1 < i32::MAX,
    ensures
        ({
            let (after, number) = registered(items, first, source, source_id, chunk_index, excerpt);
            number is Some ==> registered(
                after,
                again,
                source,
                source_id,
                later_index,
                later_excerpt,
            ) == (after, number)
        }),
{
    lemma_place_bounds(items, source, source_id);
    let (after, number) = registered(items, first, source, source_id, chunk_index, excerpt);
    if number is Some {
        let place = place_of(items, source, source_id);
        assert forall|i: int| 0 <= i < place implies !(#[trigger] after[i]).is(
            source,
            source_id,
        ) by {
            assert(after[i] == items[i]);
            if place < items.len() {
                assert(!items[i].is(items[place].source, items[place].source_id));
            }
        }
        lemma_place_of(after, source, source_id, place);
    }
}

/// A run whose evidence was seeded admits nothing new.
pub proof fn lemma_seeded_only_admits_nothing_new(
    items: Seq<CitableView>,
    source: CitationSource,
    source_id: Seq<char>,
    chunk_index: Option<i32>,
    excerpt: Seq<char>,
)
    ensures
        registered(items, false, source, source_id, chunk_index, excerpt).0 == items,
        registered(items, false, source, source_id, chunk_index, excerpt).1 is Some <==> exists|i:
            int| 0 <= i < items.len() && (#[trigger] items[i]).is(source, source_id),
{
    lemma_place_bounds(items, source, source_id);
}

/// What is stored for an answer is what it cites: the evidence whose numbers
/// are named, each once, and nothing else.
pub proof fn lemma_stored_is_cited(items: Seq<CitableView>, numbers: Seq<i32>)
    requires
        is_ledger(items),
    ensures
        forall|k: int|
            0 <= k < resolved(items, numbers).len() ==> items.contains(
                #[trigger] resolved(items, numbers)[k],
            ) && numbers.contains(resolved(items, numbers)[k].number),
        forall|j: int, k: int|
            0 <= j < k < resolved(items, numbers).len() ==> (#[trigger] resolved(
                items,
                numbers,
            )[j]).number != (#[trigger] resolved(items, numbers)[k]).number,
        forall|n: i32|
            1 <= n <= items.len() && numbers.contains(n) ==> resolved(items, numbers).contains(
                #[trigger] items[n - 1],
            ),
    decreases numbers.len(),
{
    if numbers.len() > 0 {
        let earlier = numbers.drop_last();
        lemma_stored_is_cited(items, earlier);
        let before = resolved(items, earlier);
        let after = resolved(items, numbers);
        let number = numbers.last();
        assert forall|n: i32| numbers.contains(n) implies earlier.contains(n) || n == number by {
            let i = choose|i: int| 0 <= i < numbers.len() && numbers[i] == n;
            if i < numbers.len() - 1 {
                assert(earlier[i] == n);
            }
        }
        assert forall|n: i32| earlier.contains(n) implies numbers.contains(n) by {
            let i = choose|i: int| 0 <= i < earlier.len() && earlier[i] == n;
            assert(numbers[i] == n);
        }
        assert(numbers[numbers.len() - 1] == number);
        if 1 <= number <= items.len() && !earlier.contains(number) {
            assert(after == before.push(items[number - 1]));
            assert forall|k: int| 0 <= k < after.len() implies items.contains(#[trigger] after[k])
                && numbers.contains(after[k].number) by {
                if k < before.len() {
                    assert(after[k] == before[k]);
                }
            }
            assert forall|j: int, k: int| 0 <= j < k < after.len() implies (
            #[trigger] after[j]).number != (#[trigger] after[k]).number by {
                assert(after[j] == before[j]);
                if k < before.len() {
                    assert(after[k] == before[k]);
                } else {
                    assert(earlier.contains(before[j].number));
                }
            }
            assert forall|n: i32| 1 <= n <= items.len() && numbers.contains(n) implies after.contains(
                #[trigger] items[n - 1],
            ) by {
                if n == number {
                    assert(after[before.len() as int] == items[n - 1]);
                } else {
                    let k = choose|k: int| 0 <= k < before.len() && before[k] == items[n - 1];
                    assert(after[k] == items[n - 1]);
                }
            }
        } else {
            assert(after == before);
        }
    }
}

// ==================== Markers ====================

/// The pattern of a marker, with its digits as a group.
pub const MARKER: &'static str = r"\[(\d+)\]";

/// The pattern of a marker with the space before it, where there is one.
pub const SPACED_MARKER: &'static str = r" ?\[\d+\]";

/// The decimal digits, of whatever script.
pub open spec fn decimals() -> Set<char> {
    Set::new(
        |ch: char|
            if (ch as u32) < 128 {
                text::is_digit(ch)
            } else {
                outside::unicode_digit(ch)
            },
    )
}

/// The length of the marker that `text` starts with: digits in brackets. Zero
/// where it starts with none.
pub open spec fn marker_length(text: Seq<char>) -> int {
    if text.len() == 0 || text[0] != '[' {
        0
    } else {
        let n = text::leading(text.skip(1), decimals()).len() as int;
        if n > 0 && n + 1 < text.len() && text[n + 1] == ']' {
            n + 2
        } else {
            0
        }
    }
}

/// The digits of the markers in `text`, from left to right.
pub open spec fn markers(text: Seq<char>) -> Seq<Seq<char>>
    decreases text.len(),
{
    if text.len() == 0 {
        Seq::empty()
    } else {
        let n = marker_length(text);
        if n > 0 {
            seq![text.subrange(1, n - 1)] + markers(text.skip(n))
        } else {
            markers(text.skip(1))
        }
    }
}

/// `text` without its markers, each with the space before it where there is
/// one.
pub open spec fn without_markers(text: Seq<char>) -> Seq<char>
    decreases text.len(),
{
    if text.len() == 0 {
        Seq::empty()
    } else if text[0] == ' ' && marker_length(text.skip(1)) > 0 {
        without_markers(text.skip(1 + marker_length(text.skip(1))))
    } else if marker_length(text) > 0 {
        without_markers(text.skip(marker_length(text)))
    } else {
        seq![text[0]] + without_markers(text.skip(1))
    }
}

/// The numbers that digits stand for, without what is no number.
pub open spec fn numbers_in(groups: Seq<Seq<char>>) -> Seq<i32>
    decreases groups.len(),
{
    if groups.len() == 0 {
        Seq::empty()
    } else {
        match text::i32_value(groups.last()) {
            Some(number) => numbers_in(groups.drop_last()).push(number),
            None => numbers_in(groups.drop_last()),
        }
    }
}

/// Reads the numbers that digits stand for, without what is no number.
pub fn parse_numbers(groups: &Vec<String>) -> (numbers: Vec<i32>)
    ensures
        numbers@ == numbers_in(text::texts(groups@)),
{
    let mut numbers: Vec<i32> = Vec::new();
    let mut at: usize = 0;
    let ghost all = text::texts(groups@);
    assert(all.take(0) =~= Seq::empty());
    while at < groups.len()
        invariant
            at <= groups.len(),
            all == text::texts(groups@),
            numbers@ == numbers_in(all.take(at as int)),
        decreases groups.len() - at,
    {
        assert(all.take(at + 1).drop_last() =~= all.take(at as int));
        if let Some(number) = text::parse_i32(groups[at].as_str()) {
            numbers.push(number);
        }
        at = at + 1;
    }
    assert(all.take(at as int) =~= all);
    numbers
}

impl CitationLedger {
    /// The citables that the `[N]` markers in `text` name, in the order in
    /// which the markers appear.
    ///
    /// A citation goes by the number of its marker and not by its position, so
    /// `[3]` before `[1]` does not renumber. Repeated markers collapse to one
    /// citable. A marker that names nothing is dropped: the model made it up.
    pub fn cited_in(&self, text: &str) -> (cited: Vec<Citable>)
        requires
            self.well_formed(),
        ensures
            citables_view(cited@) == resolved(self@, numbers_in(markers(text@))),
    {
        let groups = outside::first_groups(MARKER, text);
        let numbers = parse_numbers(&groups);
        self.resolve(numbers.as_slice())
    }
}

/// Takes the markers out of a text, each with the space before it.
pub fn strip_citation_markers(text: &str) -> (kept: String)
    ensures
        kept@ == without_markers(text@),
{
    outside::without_matches(SPACED_MARKER, text)
}

/// A text without markers is left as it is.
pub proof fn lemma_unmarked_text_stays(text: Seq<char>)
    requires
        markers(text).len() == 0,
    ensures
        without_markers(text) == text,
    decreases text.len(),
{
    if text.len() > 0 {
        let rest = text.skip(1);
        assert(marker_length(text) == 0);
        assert(markers(rest).len() == 0);
        assert(marker_length(rest) <= 0) by {
            if rest.len() > 0 && marker_length(rest) > 0 {
                assert(markers(rest).len() > 0);
            }
        }
        lemma_unmarked_text_stays(rest);
        assert(seq![text[0]] + rest =~= text);
    }
}

/// Whether brackets open nothing but markers.
pub open spec fn opens_only_markers(text: Seq<char>) -> bool
    decreases text.len(),
{
    if text.len() == 0 {
        true
    } else if marker_length(text) > 0 {
        opens_only_markers(text.skip(marker_length(text)))
    } else {
        text[0] != '[' && opens_only_markers(text.skip(1))
    }
}

proof fn lemma_no_bracket_no_marker(text: Seq<char>)
    requires
        forall|i: int| 0 <= i < text.len() ==> #[trigger] text[i] != '[',
    ensures
        markers(text).len() == 0,
    decreases text.len(),
{
    if text.len() > 0 {
        assert(text[0] != '[');
        lemma_no_bracket_no_marker(text.skip(1));
    }
}

proof fn lemma_no_bracket_left(text: Seq<char>)
    requires
        opens_only_markers(text),
    ensures
        forall|i: int|
            0 <= i < without_markers(text).len() ==> #[trigger] without_markers(text)[i] != '[',
    decreases text.len(),
{
    if text.len() == 0 {
        assert(without_markers(text).len() == 0);
    } else {
        let rest = text.skip(1);
        if text[0] == ' ' && marker_length(rest) > 0 {
            assert(marker_length(text) == 0);
            assert(opens_only_markers(rest));
            let after = rest.skip(marker_length(rest));
            assert(after =~= text.skip(1 + marker_length(rest)));
            lemma_no_bracket_left(after);
            assert(without_markers(text) == without_markers(after));
        } else if marker_length(text) > 0 {
            let after = text.skip(marker_length(text));
            lemma_no_bracket_left(after);
            assert(without_markers(text) == without_markers(after));
        } else {
            lemma_no_bracket_left(rest);
            let kept = without_markers(rest);
            assert(without_markers(text) == seq![text[0]] + kept);
            assert forall|i: int| 0 <= i < without_markers(text).len() implies
                #[trigger] without_markers(text)[i] != '[' by {
                if i > 0 {
                    assert(without_markers(text)[i] == kept[i - 1]);
                }
            }
        }
    }
}

/// Where brackets open nothing but markers, no marker is left.
pub proof fn lemma_markers_are_gone(text: Seq<char>)
    requires
        opens_only_markers(text),
    ensures
        markers(without_markers(text)).len() == 0,
{
    lemma_no_bracket_left(text);
    lemma_no_bracket_no_marker(without_markers(text));
}

/// Numbers as a model cites them: each in brackets, one behind the other.
pub open spec fn marks(numbers: Seq<i32>) -> Seq<char>
    decreases numbers.len(),
{
    if numbers.len() == 0 {
        Seq::empty()
    } else {
        seq!['['] + text::signed_decimal(numbers[0] as int) + seq![']'] + marks(numbers.skip(1))
    }
}

/// The numbers of a list that are not negative, in order.
pub open spec fn unsigned(numbers: Seq<i32>) -> Seq<i32>
    decreases numbers.len(),
{
    if numbers.len() == 0 {
        Seq::empty()
    } else if numbers.last() >= 0 {
        unsigned(numbers.drop_last()).push(numbers.last())
    } else {
        unsigned(numbers.drop_last())
    }
}

proof fn lemma_unsigned_front(numbers: Seq<i32>)
    requires
        numbers.len() > 0,
    ensures
        unsigned(numbers) == (if numbers[0] >= 0 {
            seq![numbers[0]]
        } else {
            Seq::<i32>::empty()
        }) + unsigned(numbers.skip(1)),
    decreases numbers.len(),
{
    let head = if numbers[0] >= 0 {
        seq![numbers[0]]
    } else {
        Seq::<i32>::empty()
    };
    let rest = numbers.skip(1);
    if numbers.len() == 1 {
        assert(numbers.drop_last() =~= Seq::<i32>::empty());
        assert(unsigned(numbers.drop_last()) =~= Seq::<i32>::empty());
        assert(rest =~= Seq::<i32>::empty());
        assert(unsigned(numbers) =~= head + unsigned(rest));
    } else {
        lemma_unsigned_front(numbers.drop_last());
        assert(numbers.drop_last().skip(1) =~= rest.drop_last());
        assert(unsigned(numbers) =~= head + unsigned(rest));
    }
}

proof fn lemma_unsigned_holds(numbers: Seq<i32>, n: i32)
    ensures
        unsigned(numbers).contains(n) <==> numbers.contains(n) && n >= 0,
    decreases numbers.len(),
{
    if numbers.len() > 0 {
        let early = numbers.drop_last();
        lemma_unsigned_holds(early, n);
        if unsigned(early).contains(n) {
            let i = choose|i: int| 0 <= i < unsigned(early).len() && unsigned(early)[i] == n;
            assert(unsigned(numbers)[i] == n);
            let k = choose|k: int| 0 <= k < early.len() && early[k] == n;
            assert(numbers[k] == n);
        }
        if numbers.contains(n) && n >= 0 {
            let k = choose|k: int| 0 <= k < numbers.len() && numbers[k] == n;
            if k < numbers.len() - 1 {
                assert(early[k] == n);
            } else {
                assert(unsigned(numbers).last() == n);
            }
        }
        if numbers.last() == n {
            assert(numbers[numbers.len() - 1] == n);
        }
    }
}

proof fn lemma_unsigned_resolve(items: Seq<CitableView>, numbers: Seq<i32>)
    ensures
        resolved(items, unsigned(numbers)) == resolved(items, numbers),
    decreases numbers.len(),
{
    if numbers.len() > 0 {
        let early = numbers.drop_last();
        lemma_unsigned_resolve(items, early);
        lemma_unsigned_holds(early, numbers.last());
        if numbers.last() >= 0 {
            assert(unsigned(numbers).drop_last() =~= unsigned(early));
        }
    }
}

proof fn lemma_numbers_front(groups: Seq<Seq<char>>)
    requires
        groups.len() > 0,
    ensures
        numbers_in(groups) == (match text::i32_value(groups[0]) {
            Some(number) => seq![number],
            None => Seq::<i32>::empty(),
        }) + numbers_in(groups.skip(1)),
    decreases groups.len(),
{
    let head = match text::i32_value(groups[0]) {
        Some(number) => seq![number],
        None => Seq::<i32>::empty(),
    };
    let rest = groups.skip(1);
    if groups.len() == 1 {
        assert(groups.drop_last() =~= Seq::<Seq<char>>::empty());
        assert(numbers_in(groups.drop_last()) =~= Seq::<i32>::empty());
        assert(rest =~= Seq::<Seq<char>>::empty());
        assert(numbers_in(groups) =~= head + numbers_in(rest));
    } else {
        lemma_numbers_front(groups.drop_last());
        assert(groups.drop_last().skip(1) =~= rest.drop_last());
        assert(numbers_in(groups) =~= head + numbers_in(rest));
    }
}

/// Characters that start no marker can be passed over.
proof fn lemma_markers_skip(text: Seq<char>, n: int)
    requires
        0 <= n <= text.len(),
        forall|i: int| 0 <= i < n ==> marker_length(#[trigger] text.skip(i)) <= 0,
    ensures
        markers(text) == markers(text.skip(n)),
    decreases n,
{
    if n == 0 {
        assert(text.skip(0) =~= text);
    } else {
        assert(text.skip(0) =~= text);
        assert(marker_length(text) <= 0);
        let rest = text.skip(1);
        assert forall|i: int| 0 <= i < n - 1 implies marker_length(#[trigger] rest.skip(i)) <= 0 by {
            assert(rest.skip(i) =~= text.skip(i + 1));
        }
        lemma_markers_skip(rest, n - 1);
        assert(rest.skip(n - 1) =~= text.skip(n));
    }
}

proof fn lemma_mark(number: i32, rest: Seq<char>)
    ensures
        markers(seq!['['] + text::signed_decimal(number as int) + seq![']'] + rest) == (if number
            >= 0 {
            seq![text::decimal(number as nat)]
        } else {
            Seq::<Seq<char>>::empty()
        }) + markers(rest),
{
    let shown = text::signed_decimal(number as int);
    let whole = seq!['['] + shown + seq![']'] + rest;
    let inner = whole.skip(1);
    let n = shown.len() as int;
    if number >= 0 {
        text::lemma_decimal_reads_back(number as nat);
        assert forall|i: int| 0 <= i < n implies decimals().contains(#[trigger] inner[i]) by {
            assert(inner[i] == shown[i]);
            assert(text::is_digit(shown[i]));
        }
        assert(inner[n] == ']');
        assert(!decimals().contains(']'));
        text::lemma_drop_front(inner, decimals(), n);
        assert(text::leading(inner, decimals()).len() == n);
        assert(marker_length(whole) == n + 2);
        assert(whole.subrange(1, n + 1) =~= shown);
        assert(whole.skip(n + 2) =~= rest);
    } else {
        let positive = text::decimal((0 - number) as nat);
        text::lemma_decimal_reads_back((0 - number) as nat);
        assert(shown =~= seq!['-'] + positive);
        assert(inner[0] == '-');
        assert(!decimals().contains('-'));
        text::lemma_drop_front(inner, decimals(), 0);
        assert(text::leading(inner, decimals()).len() == 0);
        assert forall|i: int| 0 <= i < n + 2 implies marker_length(#[trigger] whole.skip(i)) <= 0 by {
            let part = whole.skip(i);
            assert(part[0] == whole[i]);
            if i == 0 {
                assert(part =~= whole);
            } else if i == 1 {
                assert(whole[i] == '-');
            } else if i <= n {
                assert(whole[i] == positive[i - 2]);
                assert(text::is_digit(positive[i - 2]));
            } else {
                assert(whole[i] == ']');
            }
        }
        lemma_markers_skip(whole, n + 2);
        assert(whole.skip(n + 2) =~= rest);
        assert(Seq::<Seq<char>>::empty() + markers(rest) =~= markers(rest));
    }
}

proof fn lemma_marks_read_back(numbers: Seq<i32>)
    ensures
        numbers_in(markers(marks(numbers))) == unsigned(numbers),
    decreases numbers.len(),
{
    if numbers.len() > 0 {
        let rest = numbers.skip(1);
        lemma_marks_read_back(rest);
        lemma_mark(numbers[0], marks(rest));
        lemma_unsigned_front(numbers);
        let groups = markers(marks(numbers));
        if numbers[0] >= 0 {
            let shown = text::decimal(numbers[0] as nat);
            text::lemma_decimal_reads_back(numbers[0] as nat);
            assert(groups.skip(1) =~= markers(marks(rest)));
            lemma_numbers_front(groups);
            assert(text::is_digit(shown[0]));
            assert(text::i32_value(shown) == Some(numbers[0]));
        } else {
            assert(groups =~= markers(marks(rest)));
            assert(unsigned(numbers) =~= unsigned(rest));
        }
    }
}

/// Citing a list of numbers as markers gives what resolving the list gives.
pub proof fn lemma_citing_is_resolving(items: Seq<CitableView>, numbers: Seq<i32>)
    ensures
        resolved(items, numbers_in(markers(marks(numbers)))) == resolved(items, numbers),
{
    lemma_marks_read_back(numbers);
    lemma_unsigned_resolve(items, numbers);
}

/// The numbers of evidence, in order.
pub open spec fn numbers_of(items: Seq<CitableView>) -> Seq<i32> {
    Seq::new(items.len(), |i: int| items[i].number)
}

proof fn lemma_first_numbers(items: Seq<CitableView>, n: int)
    requires
        is_ledger(items),
        0 <= n <= items.len(),
    ensures
        resolved(items, numbers_of(items).take(n)) == items.take(n),
    decreases n,
{
    let numbers = numbers_of(items).take(n);
    if n == 0 {
        assert(items.take(0) =~= Seq::<CitableView>::empty());
    } else {
        lemma_first_numbers(items, n - 1);
        let early = numbers.drop_last();
        assert(early =~= numbers_of(items).take(n - 1));
        assert(numbers.last() == n);
        assert(!early.contains(numbers.last())) by {
            assert forall|i: int| 0 <= i < early.len() implies early[i] != n by {
                assert(early[i] == items[i].number);
            }
        }
        assert(items.take(n) =~= items.take(n - 1).push(items[n - 1]));
    }
}

/// All numbers of a ledger together give the whole ledger, in its order.
pub proof fn lemma_all_numbers_give_everything(items: Seq<CitableView>)
    requires
        is_ledger(items),
    ensures
        resolved(items, numbers_of(items)) == items,
{
    lemma_first_numbers(items, items.len() as int);
    assert(numbers_of(items).take(items.len() as int) =~= numbers_of(items));
    assert(items.take(items.len() as int) =~= items);
}

// ==================== What a number stands for ====================

/// Evidence that is new to a ledger is numbered next and kept as it was given,
/// if the ledger admits any; evidence counts as known only where both the kind
/// and the id are, and then it has the number that it had.
pub proof fn lemma_evidence_is_kept_as_given(
    items: Seq<CitableView>,
    admits: bool,
    source: CitationSource,
    source_id: Seq<char>,
    chunk_index: Option<i32>,
    excerpt: Seq<char>,
)
    requires
        is_ledger(items),
        items.len() + 1 < i32::MAX,
    ensures
        ({
            let (after, number) = registered(items, admits, source, source_id, chunk_index, excerpt);
            let known = exists|i: int|
                0 <= i < items.len() && (#[trigger] items[i]).source == source && items[i].source_id
                    == source_id;
            &&& !known && admits ==> {
                &&& after.len() == items.len() + 1
                &&& after.drop_last() == items
                &&& number == Some((items.len() + 1) as i32)
                &&& after.last().number == items.len() + 1
                &&& after.last().source == source
                &&& after.last().source_id == source_id
                &&& after.last().chunk_index == chunk_index
                &&& after.last().excerpt == excerpt
            }
            &&& !known && !admits ==> after == items && number is None
            &&& known ==> {
                &&& after == items
                &&& number matches Some(number)
                &&& 1 <= number <= items.len()
                &&& items[number - 1].source == source
                &&& items[number - 1].source_id == source_id
            }
        }),
{
    lemma_place_bounds(items, source, source_id);
    let (after, number) = registered(items, admits, source, source_id, chunk_index, excerpt);
    let place = place_of(items, source, source_id);
    if place < items.len() {
        assert(items[place].source == source);
    } else {
        assert forall|i: int| 0 <= i < items.len() implies !((#[trigger] items[i]).source == source
            && items[i].source_id == source_id) by {
            assert(!items[i].is(source, source_id));
        }
        if admits {
            assert(after.drop_last() =~= items);
        }
    }
}

/// What an answer cites is stored in the order in which it is first cited.
pub proof fn lemma_cited_in_the_order_of_first_mention(
    items: Seq<CitableView>,
    numbers: Seq<i32>,
    j: int,
    k: int,
) -> (at: (int, int))
    requires
        is_ledger(items),
        0 <= j < k < resolved(items, numbers).len(),
    ensures
        0 <= at.0 < at.1 < numbers.len(),
        numbers[at.0] == resolved(items, numbers)[j].number,
        numbers[at.1] == resolved(items, numbers)[k].number,
        forall|i: int|
            0 <= i < at.1 ==> #[trigger] numbers[i] != resolved(items, numbers)[k].number,
    decreases numbers.len(),
{
    let early = numbers.drop_last();
    let before = resolved(items, early);
    if k < before.len() {
        let at = lemma_cited_in_the_order_of_first_mention(items, early, j, k);
        assert(numbers[at.0] == early[at.0] && numbers[at.1] == early[at.1]);
        assert forall|i: int| 0 <= i < at.1 implies #[trigger] numbers[i] != resolved(
            items,
            numbers,
        )[k].number by {
            assert(early[i] == numbers[i]);
        }
        at
    } else {
        lemma_stored_is_cited(items, early);
        assert(before[j] == resolved(items, numbers)[j]);
        assert(early.contains(before[j].number));
        let a = choose|a: int| 0 <= a < early.len() && early[a] == before[j].number;
        assert(numbers[a] == early[a]);
        assert forall|i: int| 0 <= i < numbers.len() - 1 implies #[trigger] numbers[i]
            != numbers.last() by {
            assert(early[i] == numbers[i]);
        }
        (a, numbers.len() - 1)
    }
}

/// What a number in an answer cites is the evidence that bears that number, and
/// a number that no evidence bears cites nothing.
pub proof fn lemma_a_number_cites_what_bears_it(items: Seq<CitableView>, number: i32)
    requires
        is_ledger(items),
    ensures
        1 <= number <= items.len() ==> resolved(items, seq![number]).len() == 1 && resolved(
            items,
            seq![number],
        )[0] == items[number - 1] && items[number - 1].number == number,
        !(1 <= number <= items.len()) ==> resolved(items, seq![number]).len() == 0,
{
    reveal_with_fuel(resolved, 2);
    assert(seq![number].drop_last() =~= Seq::<i32>::empty());
}

proof fn lemma_marker_length(digits: Seq<char>, after: Seq<char>)
    requires
        text::all_digits(digits),
        digits.len() > 0,
    ensures
        marker_length("["@ + digits + "]"@ + after) == digits.len() + 2,
{
    reveal_strlit("[");
    reveal_strlit("]");
    let whole = "["@ + digits + "]"@ + after;
    let rest = whole.skip(1);
    let n = digits.len() as int;
    assert forall|i: int| 0 <= i < n implies decimals().contains(#[trigger] rest[i]) by {
        assert(rest[i] == digits[i]);
        assert(text::is_digit(digits[i]));
    }
    assert(rest[n] == ']');
    text::lemma_drop_front(rest, decimals(), n);
    assert(text::leading(rest, decimals()).len() == n);
    assert(whole[n + 1] == ']');
}

/// A marker is read wherever it stands in a text, by its digits, and so are
/// those behind it.
pub proof fn lemma_a_marker_is_read_where_it_stands(
    before: Seq<char>,
    digits: Seq<char>,
    after: Seq<char>,
)
    requires
        forall|i: int| 0 <= i < before.len() ==> #[trigger] before[i] != '[',
        text::all_digits(digits),
        digits.len() > 0,
    ensures
        markers(before + "["@ + digits + "]"@ + after) == seq![digits] + markers(after),
    decreases before.len(),
{
    reveal_strlit("[");
    reveal_strlit("]");
    let whole = before + "["@ + digits + "]"@ + after;
    if before.len() == 0 {
        lemma_marker_length(digits, after);
        assert(whole =~= "["@ + digits + "]"@ + after);
        let n = digits.len() as int + 2;
        assert(whole.subrange(1, n - 1) =~= digits);
        assert(whole.skip(n) =~= after);
    } else {
        let rest = before.skip(1);
        assert forall|i: int| 0 <= i < rest.len() implies #[trigger] rest[i] != '[' by {
            assert(rest[i] == before[i + 1]);
        }
        lemma_a_marker_is_read_where_it_stands(rest, digits, after);
        assert(whole[0] == before[0]);
        assert(whole.skip(1) =~= rest + "["@ + digits + "]"@ + after);
    }
}

/// A marker goes with the space before it, if there is one, and everything else
/// stays as it is and where it is.
pub proof fn lemma_what_stands_around_a_marker_stays(
    before: Seq<char>,
    digits: Seq<char>,
    after: Seq<char>,
)
    requires
        forall|i: int| 0 <= i < before.len() ==> #[trigger] before[i] != '[',
        text::all_digits(digits),
        digits.len() > 0,
    ensures
        without_markers(before + " ["@ + digits + "]"@ + after) == before + without_markers(after),
        before.len() == 0 || before.last() != ' ' ==> without_markers(
            before + "["@ + digits + "]"@ + after,
        ) == before + without_markers(after),
    decreases before.len(),
{
    reveal_strlit(" [");
    reveal_strlit("[");
    reveal_strlit("]");
    let marker = "["@ + digits + "]"@ + after;
    let spaced = before + " ["@ + digits + "]"@ + after;
    let bare = before + "["@ + digits + "]"@ + after;
    let n = digits.len() as int + 2;
    lemma_marker_length(digits, after);
    assert(marker.skip(n) =~= after);
    if before.len() == 0 {
        assert(spaced.skip(1) =~= marker);
        assert(spaced[0] == ' ');
        assert(spaced.skip(1 + n) =~= after);
        assert(bare =~= marker);
        assert(bare[0] == '[');
        assert(before + without_markers(after) =~= without_markers(after));
    } else {
        let rest = before.skip(1);
        assert forall|i: int| 0 <= i < rest.len() implies #[trigger] rest[i] != '[' by {
            assert(rest[i] == before[i + 1]);
        }
        lemma_what_stands_around_a_marker_stays(rest, digits, after);
        assert(spaced[0] == before[0] && bare[0] == before[0]);
        assert(spaced.skip(1) =~= rest + " ["@ + digits + "]"@ + after);
        assert(bare.skip(1) =~= rest + "["@ + digits + "]"@ + after);
        if rest.len() == 0 {
            assert(spaced.skip(1)[0] == ' ');
            assert(before.last() == before[0]);
        } else {
            assert(spaced.skip(1)[0] == rest[0]);
            assert(bare.skip(1)[0] == rest[0]);
            assert(rest.last() == before.last());
        }
        assert(marker_length(spaced.skip(1)) == 0);
        assert(marker_length(spaced) == 0 && marker_length(bare) == 0);
        assert(before + without_markers(after) =~= seq![before[0]] + (rest + without_markers(
            after,
        )));
    }
}

/// Digits stand for the number that they spell, in order; what spells none is
/// passed over.
pub proof fn lemma_digits_stand_for_their_numbers(
    early: Seq<Seq<char>>,
    digits: Seq<char>,
    late: Seq<Seq<char>>,
)
    ensures
        numbers_in(early + seq![digits] + late) == numbers_in(early) + (match text::i32_value(
            digits,
        ) {
            Some(number) => seq![number],
            None => Seq::empty(),
        }) + numbers_in(late),
        numbers_in(Seq::empty()).len() == 0,
    decreases late.len(),
{
    let all = early + seq![digits] + late;
    let own = match text::i32_value(digits) {
        Some(number) => seq![number],
        None => Seq::empty(),
    };
    if late.len() == 0 {
        assert(all.drop_last() =~= early);
        assert(all.last() == digits);
        assert(numbers_in(all) =~= numbers_in(early) + own + numbers_in(late));
    } else {
        lemma_digits_stand_for_their_numbers(early, digits, late.drop_last());
        assert(all.drop_last() =~= early + seq![digits] + late.drop_last());
        assert(all.last() == late.last());
        assert(numbers_in(all) =~= numbers_in(early) + own + numbers_in(late));
    }
}


} // verus!
