//! Reading the ingredient lines of legacy recipes.

use vstd::prelude::*;
use crate::decimal::{decimal_ratio, parse_decimal, DecimalError};
use crate::normalizer::{
    normalize_quantities, normalized, ImportError, Multipliers, RawQuantities,
};
use crate::sorting::{
    is_sorted, keys_distinct, lemma_keys_distinct_rearranged, sort_by_key, Keyed,
};
use crate::ratio::Ratio;
use crate::text::{
    double_space_position, find_char, find_double_space, lemma_text_lt_irreflexive,
    lemma_text_lt_total, lemma_text_lt_transitive, position_of, str_equal, str_lt, text_lt, trim,
    trimmed,
};

verus! {

/// The age group under which a legacy recipe lists an ingredient line.
#[derive(Clone, Copy, Debug, PartialEq, Eq, Structural)]
pub enum Band {
    /// For everybody.
    General,
    /// For children only.
    Child,
    /// For teens only.
    Teen,
    /// For adults only.
    Adult,
}

/// One ingredient line of a legacy recipe: a quantity, a unit and the key
/// of the ingredient, listed under one age group.
#[derive(Clone, Debug, PartialEq, Eq)]
pub struct RawLine {
    pub band: Band,
    pub quantity: Ratio,
    pub unit: String,
    pub key: String,
}

/// The text of the three fields of a line.
pub struct LineFields {
    pub quantity: Seq<char>,
    pub unit: Seq<char>,
    pub key: Seq<char>,
}

/// The text of the three fields of a line: the quantity, the unit and the
/// key. The key stands behind the first two spaces in a row, and the unit
/// behind the first space in front of them; each field is trimmed. `None`
/// where the line has no two spaces in a row, or no space in front of them.
pub open spec fn line_fields(s: Seq<char>) -> Option<LineFields> {
    let k = double_space_position(s);
    if k >= s.len() {
        None
    } else {
        let left = s.take(k);
        let right = s.skip(k + 2);
        let j = position_of(left, ' ');
        if j >= left.len() {
            None
        } else {
            Some(
                LineFields {
                    quantity: trimmed(left.take(j)),
                    unit: trimmed(left.skip(j + 1)),
                    key: trimmed(right),
                },
            )
        }
    }
}

/// What a line of text is read as: `Ok(None)` for a line that is skipped,
/// because it has not the three fields or its quantity is no decimal number,
/// and `Overflow` for a quantity that cannot be represented.
pub open spec fn line_outcome(s: Seq<char>) -> Result<Option<Ratio>, ImportError> {
    match line_fields(s) {
        None => Ok(None),
        Some(fields) => match decimal_ratio(fields.quantity) {
            Ok(q) => Ok(Some(q)),
            Err(DecimalError::Invalid) => Ok(None),
            Err(DecimalError::TooLarge) => Err(ImportError::Overflow),
        },
    }
}

/// The line is what the text is read as under the age group.
pub open spec fn line_reads(line: RawLine, s: Seq<char>, band: Band) -> bool {
    &&& line_outcome(s) == Ok::<Option<Ratio>, ImportError>(Some(line.quantity))
    &&& line.band == band
    &&& line.quantity.wf()
    &&& line.unit@ == line_fields(s)->0.unit
    &&& line.key@ == line_fields(s)->0.key
}

/// Reads one ingredient line, written as a quantity, one space, a unit, two
/// spaces and the ingredient's key.
pub fn parse_ingredient_line(line: &str, band: Band) -> (r: Result<Option<RawLine>, ImportError>)
    ensures
        match r {
            Ok(Some(read)) => line_reads(read, line@, band),
            Ok(None) => line_outcome(line@) == Ok::<Option<Ratio>, ImportError>(None),
            Err(e) => line_outcome(line@) == Err::<Option<Ratio>, ImportError>(e),
        },
{
    let n: usize = line.unicode_len();
    let k: usize = match find_double_space(line) {
        None => {
            return Ok(None);
        },
        Some(k) => k,
    };
    let left: &str = line.substring_char(0, k);
    let right: &str = line.substring_char(k + 2, n);
    proof {
        assert(left@ =~= line@.take(k as int));
        assert(right@ =~= line@.skip(k + 2));
    }
    let j: usize = match find_char(left, ' ') {
        None => {
            return Ok(None);
        },
        Some(j) => j,
    };
    let quantity_text: &str = trim(left.substring_char(0, j));
    let unit_text: &str = trim(left.substring_char(j + 1, k));
    let key_text: &str = trim(right);
    proof {
        assert(left@.subrange(0, j as int) =~= left@.take(j as int));
        assert(left@.subrange(j + 1, k as int) =~= left@.skip(j + 1));
    }
    match parse_decimal(quantity_text) {
        Ok(quantity) => Ok(
            Some(RawLine { band, quantity, unit: unit_text.to_owned(), key: key_text.to_owned() }),
        ),
        Err(DecimalError::Invalid) => Ok(None),
        Err(DecimalError::TooLarge) => Err(ImportError::Overflow),
    }
}

/// The head count that the quantities of a legacy recipe are written for:
/// the number that the text writes, and one where the text is no number,
/// a number below one, or a number that cannot be represented.
pub open spec fn porci_of(s: Seq<char>) -> Ratio {
    match decimal_ratio(s) {
        Ok(r) => if r.spec_lt(Ratio::spec_one()) {
            Ratio::spec_one()
        } else {
            r
        },
        Err(_) => Ratio::spec_one(),
    }
}

/// Reads the head count that the quantities of a legacy recipe are written
/// for; it is at least one.
pub fn parse_porci(text: &str) -> (r: Ratio)
    ensures
        r == porci_of(text@),
        r.wf(),
        r.num > 0,
{
    match parse_decimal(text) {
        Ok(r) => {
            let one = Ratio::one();
            if r.lt(&one) {
                one
            } else {
                assert(r.num * 1 >= 1 * r.den);
                r
            }
        },
        Err(_) => Ratio::one(),
    }
}

/// A line as the specifications see it: with the text of its unit and key.
pub struct RawLineView {
    pub band: Band,
    pub quantity: Ratio,
    pub unit: Seq<char>,
    pub key: Seq<char>,
}

impl View for RawLine {
    type V = RawLineView;

    open spec fn view(&self) -> RawLineView {
        RawLineView { band: self.band, quantity: self.quantity, unit: self.unit@, key: self.key@ }
    }
}

/// The lines as the specifications see them.
pub open spec fn views(lines: Seq<RawLine>) -> Seq<RawLineView> {
    Seq::new(lines.len(), |i: int| lines[i]@)
}

/// Every quantity is well formed.
pub open spec fn lines_wf(lines: Seq<RawLineView>) -> bool {
    forall|i: int| 0 <= i < lines.len() ==> (#[trigger] lines[i]).quantity.wf()
}

/// What a line of text is read as under an age group.
pub open spec fn parsed_line(s: Seq<char>, band: Band) -> Result<Option<RawLineView>, ImportError> {
    match line_outcome(s) {
        Ok(Some(quantity)) => Ok(
            Some(
                RawLineView {
                    band,
                    quantity,
                    unit: line_fields(s)->0.unit,
                    key: line_fields(s)->0.key,
                },
            ),
        ),
        Ok(None) => Ok(None),
        Err(e) => Err(e),
    }
}

/// What the lines of one age group are read as: the lines that are not
/// skipped, in their order.
pub open spec fn parsed_group(texts: Seq<String>, band: Band) -> Result<
    Seq<RawLineView>,
    ImportError,
>
    decreases texts.len(),
{
    if texts.len() == 0 {
        Ok(Seq::empty())
    } else {
        match (parsed_group(texts.drop_last(), band), parsed_line(texts.last()@, band)) {
            (Ok(read), Ok(Some(line))) => Ok(read.push(line)),
            (Ok(read), Ok(None)) => Ok(read),
            _ => Err(ImportError::Overflow),
        }
    }
}

/// Reads the lines of one age group.
pub fn parse_group(texts: &Vec<String>, band: Band) -> (r: Result<Vec<RawLine>, ImportError>)
    ensures
        match r {
            Ok(lines) => parsed_group(texts@, band) == Ok::<Seq<RawLineView>, ImportError>(
                views(lines@),
            ) && lines_wf(views(lines@)),
            Err(e) => parsed_group(texts@, band) == Err::<Seq<RawLineView>, ImportError>(e),
        },
{
    let mut out: Vec<RawLine> = Vec::new();
    let mut i: usize = 0;
    proof {
        assert(texts@.take(0) =~= Seq::<String>::empty());
        assert(views(out@) =~= Seq::<RawLineView>::empty());
    }
    while i < texts.len()
        invariant
            i <= texts@.len(),
            lines_wf(views(out@)),
            parsed_group(texts@.take(i as int), band) == Ok::<Seq<RawLineView>, ImportError>(
                views(out@),
            ),
        decreases texts@.len() - i,
    {
        let ghost prefix: Seq<String> = texts@.take(i as int);
        let ghost next: Seq<String> = texts@.take(i + 1);
        let ghost lines_before: Seq<RawLine> = out@;
        proof {
            assert(next.drop_last() =~= prefix);
            assert(next.last() == texts@[i as int]);
        }
        match parse_ingredient_line(texts[i].as_str(), band) {
            Err(e) => {
                proof {
                    lemma_parsed_group_error(texts@, i + 1, band);
                }
                return Err(e);
            },
            Ok(None) => {},
            Ok(Some(line)) => {
                out.push(line);
                proof {
                    assert(views(out@) =~= views(lines_before).push(line@));
                    assert forall|x: int| 0 <= x < views(out@).len() implies (#[trigger] views(
                        out@,
                    )[x]).quantity.wf() by {
                        if x < lines_before.len() {
                            assert(views(out@)[x] == views(lines_before)[x]);
                        }
                    }
                }
            },
        }
        i += 1;
    }
    proof {
        assert(texts@.take(i as int) =~= texts@);
    }
    Ok(out)
}

/// A group that has an error after some lines has one after more lines.
pub proof fn lemma_parsed_group_error(texts: Seq<String>, n: int, band: Band)
    requires
        0 <= n <= texts.len(),
        parsed_group(texts.take(n), band) is Err,
    ensures
        parsed_group(texts, band) is Err,
    decreases texts.len() - n,
{
    if n == texts.len() {
        assert(texts.take(n) =~= texts);
    } else {
        let t = texts.take(n + 1);
        assert(t.drop_last() =~= texts.take(n));
        lemma_parsed_group_error(texts, n + 1, band);
    }
}

/// The ingredient lines of a legacy recipe by age group; the names of the
/// groups for children, teens and adults are those of the legacy data.
#[derive(Clone, Debug, PartialEq, Eq)]
pub struct LegacyGroups {
    pub general: Vec<String>,
    pub decko: Vec<String>,
    pub pubos: Vec<String>,
    pub dospelak: Vec<String>,
}

/// What the lines of a legacy recipe are read as: the lines for everybody,
/// then those for children, for teens and for adults.
pub open spec fn legacy_lines(groups: LegacyGroups) -> Result<Seq<RawLineView>, ImportError> {
    match (
        parsed_group(groups.general@, Band::General),
        parsed_group(groups.decko@, Band::Child),
        parsed_group(groups.pubos@, Band::Teen),
        parsed_group(groups.dospelak@, Band::Adult),
    ) {
        (Ok(general), Ok(child), Ok(teen), Ok(adult)) => Ok(general + child + teen + adult),
        _ => Err(ImportError::Overflow),
    }
}

/// The views of lines joined are the views of the lines, joined.
proof fn lemma_views_joined(a: Seq<RawLine>, b: Seq<RawLine>)
    ensures
        views(a + b) == views(a) + views(b),
        lines_wf(views(a)) && lines_wf(views(b)) ==> lines_wf(views(a + b)),
{
    assert(views(a + b) =~= views(a) + views(b));
    if lines_wf(views(a)) && lines_wf(views(b)) {
        assert forall|i: int| 0 <= i < views(a + b).len() implies (#[trigger] views(
            a + b,
        )[i]).quantity.wf() by {
            if i < a.len() {
                assert(views(a + b)[i] == views(a)[i]);
            } else {
                assert(views(a + b)[i] == views(b)[i - a.len()]);
            }
        }
    }
}

/// Reads the ingredient lines of a legacy recipe.
pub fn parse_groups(groups: &LegacyGroups) -> (r: Result<Vec<RawLine>, ImportError>)
    ensures
        match r {
            Ok(lines) => legacy_lines(*groups) == Ok::<Seq<RawLineView>, ImportError>(
                views(lines@),
            ) && lines_wf(views(lines@)),
            Err(e) => legacy_lines(*groups) == Err::<Seq<RawLineView>, ImportError>(e),
        },
{
    let mut lines: Vec<RawLine> = match parse_group(&groups.general, Band::General) {
        Err(e) => {
            return Err(e);
        },
        Ok(lines) => lines,
    };
    let mut child: Vec<RawLine> = match parse_group(&groups.decko, Band::Child) {
        Err(e) => {
            return Err(e);
        },
        Ok(lines) => lines,
    };
    let mut teen: Vec<RawLine> = match parse_group(&groups.pubos, Band::Teen) {
        Err(e) => {
            return Err(e);
        },
        Ok(lines) => lines,
    };
    let mut adult: Vec<RawLine> = match parse_group(&groups.dospelak, Band::Adult) {
        Err(e) => {
            return Err(e);
        },
        Ok(lines) => lines,
    };
    proof {
        lemma_views_joined(lines@, child@);
        lemma_views_joined(lines@ + child@, teen@);
        lemma_views_joined(lines@ + child@ + teen@, adult@);
    }
    lines.append(&mut child);
    lines.append(&mut teen);
    lines.append(&mut adult);
    Ok(lines)
}

/// The sum of the quantities that the lines give for an ingredient under
/// one age group, added up in the order of the lines; `None` where a sum
/// cannot be represented.
pub open spec fn band_sum(lines: Seq<RawLineView>, band: Band, key: Seq<char>) -> Option<Ratio>
    decreases lines.len(),
{
    if lines.len() == 0 {
        Some(Ratio::spec_zero())
    } else {
        let rest = band_sum(lines.drop_last(), band, key);
        let last = lines.last();
        if last.band == band && last.key == key {
            match rest {
                Some(t) => t.spec_checked_add(last.quantity),
                None => None,
            }
        } else {
            rest
        }
    }
}

/// The unit of the first line for the ingredient; empty where there is no
/// such line.
pub open spec fn first_unit(lines: Seq<RawLineView>, key: Seq<char>) -> Seq<char>
    decreases lines.len(),
{
    if lines.len() == 0 {
        Seq::empty()
    } else if lines[0].key == key {
        lines[0].unit
    } else {
        first_unit(lines.drop_first(), key)
    }
}

/// Some line is for the ingredient.
pub open spec fn key_listed(lines: Seq<RawLineView>, key: Seq<char>) -> bool {
    exists|k: int| 0 <= k < lines.len() && (#[trigger] lines[k]).key == key
}

/// The four sums of the ingredient can be represented.
pub open spec fn key_sums_fit(lines: Seq<RawLineView>, key: Seq<char>) -> bool {
    &&& band_sum(lines, Band::General, key) is Some
    &&& band_sum(lines, Band::Child, key) is Some
    &&& band_sum(lines, Band::Teen, key) is Some
    &&& band_sum(lines, Band::Adult, key) is Some
}

/// The sums of every ingredient that is listed can be represented.
pub open spec fn sums_fit(lines: Seq<RawLineView>) -> bool {
    forall|k: int| 0 <= k < lines.len() ==> key_sums_fit(lines, (#[trigger] lines[k]).key)
}

/// The sum of the quantities that the lines give for an ingredient under
/// one age group.
pub fn sum_band(lines: &Vec<RawLine>, band: Band, key: &str) -> (r: Option<Ratio>)
    requires
        lines_wf(views(lines@)),
    ensures
        r == band_sum(views(lines@), band, key@),
        r is Some ==> r->0.wf(),
{
    let mut total: Option<Ratio> = Some(Ratio::zero());
    let mut i: usize = 0;
    proof {
        assert(views(lines@).take(0) =~= Seq::<RawLineView>::empty());
    }
    while i < lines.len()
        invariant
            i <= lines@.len(),
            lines_wf(views(lines@)),
            total == band_sum(views(lines@).take(i as int), band, key@),
            total is Some ==> total->0.wf(),
        decreases lines@.len() - i,
    {
        proof {
            let next = views(lines@).take(i + 1);
            assert(next.drop_last() =~= views(lines@).take(i as int));
            assert(next.last() == lines@[i as int]@);
            assert(views(lines@)[i as int].quantity.wf());
        }
        if lines[i].band == band && str_equal(lines[i].key.as_str(), key) {
            total = match total {
                Some(t) => t.checked_add(&lines[i].quantity),
                None => None,
            };
        }
        i += 1;
    }
    proof {
        assert(views(lines@).take(i as int) =~= views(lines@));
    }
    total
}

/// The unit of the first line for the ingredient.
pub fn unit_of(lines: &Vec<RawLine>, key: &str) -> (r: String)
    ensures
        r@ == first_unit(views(lines@), key@),
{
    let mut i: usize = 0;
    proof {
        assert(views(lines@).skip(0) =~= views(lines@));
    }
    while i < lines.len()
        invariant
            i <= lines@.len(),
            first_unit(views(lines@), key@) == first_unit(views(lines@).skip(i as int), key@),
        decreases lines@.len() - i,
    {
        proof {
            let rest = views(lines@).skip(i as int);
            assert(rest[0] == lines@[i as int]@);
            assert(rest.drop_first() =~= views(lines@).skip(i + 1));
        }
        if str_equal(lines[i].key.as_str(), key) {
            return lines[i].unit.clone();
        }
        i += 1;
    }
    let empty: String = String::new();
    empty
}

/// The key of an ingredient in a legacy recipe.
#[derive(Clone, Debug, PartialEq, Eq)]
pub struct KeyName {
    pub name: String,
}

impl Keyed for KeyName {
    open spec fn precedes(&self, other: &Self) -> bool {
        text_lt(self.name@, other.name@)
    }

    fn comes_before(&self, other: &Self) -> (b: bool) {
        str_lt(self.name.as_str(), other.name.as_str())
    }

    proof fn lemma_irreflexive(a: &Self) {
        lemma_text_lt_irreflexive(a.name@);
    }

    proof fn lemma_transitive(a: &Self, b: &Self, c: &Self) {
        lemma_text_lt_transitive(a.name@, b.name@, c.name@);
    }
}

/// Some key is the given text.
pub open spec fn has_key(keys: Seq<KeyName>, key: Seq<char>) -> bool {
    exists|i: int| 0 <= i < keys.len() && (#[trigger] keys[i]).name@ == key
}

/// The keys are those of the lines: each is listed, and each line's key is
/// among them.
pub open spec fn keys_of(keys: Seq<KeyName>, lines: Seq<RawLineView>) -> bool {
    &&& forall|i: int| 0 <= i < keys.len() ==> key_listed(lines, (#[trigger] keys[i]).name@)
    &&& forall|k: int| 0 <= k < lines.len() ==> has_key(keys, (#[trigger] lines[k]).key)
}

/// Whether the key is among the keys.
pub fn contains_key(keys: &Vec<KeyName>, key: &str) -> (b: bool)
    ensures
        b == has_key(keys@, key@),
{
    let mut i: usize = 0;
    while i < keys.len()
        invariant
            i <= keys@.len(),
            forall|x: int| 0 <= x < i ==> (#[trigger] keys@[x]).name@ != key@,
        decreases keys@.len() - i,
    {
        if str_equal(keys[i].name.as_str(), key) {
            return true;
        }
        i += 1;
    }
    false
}

/// The keys of the lines, each once.
pub fn distinct_keys(lines: &Vec<RawLine>) -> (r: Vec<KeyName>)
    ensures
        keys_of(r@, views(lines@)),
        keys_distinct(r@),
{
    let mut keys: Vec<KeyName> = Vec::new();
    let mut n: usize = 0;
    let ghost all: Seq<RawLineView> = views(lines@);
    while n < lines.len()
        invariant
            n <= lines@.len(),
            all == views(lines@),
            keys_distinct(keys@),
            forall|i: int| 0 <= i < keys@.len() ==> key_listed(all, (#[trigger] keys@[i]).name@),
            forall|k: int| 0 <= k < n ==> has_key(keys@, (#[trigger] all[k]).key),
        decreases lines@.len() - n,
    {
        let ghost before: Seq<KeyName> = keys@;
        if !contains_key(&keys, lines[n].key.as_str()) {
            keys.push(KeyName { name: lines[n].key.clone() });
            proof {
                let added = keys@[before.len() as int];
                assert(all[n as int].key == added.name@);
                assert forall|i: int, j: int|
                    #![trigger keys@[i], keys@[j]]
                    0 <= i < j < keys@.len() implies keys@[i].precedes(&keys@[j])
                    || keys@[j].precedes(&keys@[i]) by {
                    if j < before.len() {
                        assert(keys@[i] == before[i] && keys@[j] == before[j]);
                        assert(before[i].precedes(&before[j]) || before[j].precedes(&before[i]));
                    } else {
                        assert(keys@[i] == before[i]);
                        assert(before[i].name@ != added.name@);
                        lemma_text_lt_total(before[i].name@, added.name@);
                    }
                }
                assert forall|i: int| 0 <= i < keys@.len() implies key_listed(
                    all,
                    (#[trigger] keys@[i]).name@,
                ) by {
                    if i < before.len() {
                        assert(keys@[i] == before[i]);
                    }
                }
                assert forall|k: int| 0 <= k < n + 1 implies has_key(
                    keys@,
                    (#[trigger] all[k]).key,
                ) by {
                    if k < n {
                        assert(has_key(before, all[k].key));
                        let i = choose|i: int|
                            0 <= i < before.len() && (#[trigger] before[i]).name@ == all[k].key;
                        assert(keys@[i] == before[i]);
                    } else {
                        assert(keys@[before.len() as int].name@ == all[k].key);
                    }
                }
            }
        }
        n += 1;
    }
    keys
}

/// The raw quantities of one ingredient of a legacy recipe, with its key
/// and its unit.
#[derive(Clone, Debug, PartialEq, Eq)]
pub struct IngredientEntry {
    pub key: String,
    pub quantities: RawQuantities,
    pub unit: String,
}

/// The entry holds what the lines say of its ingredient: the sum of the
/// quantities under each age group, and the unit of the first line.
pub open spec fn entry_ok(e: IngredientEntry, lines: Seq<RawLineView>) -> bool {
    &&& key_listed(lines, e.key@)
    &&& e.unit@ == first_unit(lines, e.key@)
    &&& e.quantities.wf()
    &&& band_sum(lines, Band::General, e.key@) == Some(e.quantities.general)
    &&& band_sum(lines, Band::Child, e.key@) == Some(e.quantities.child)
    &&& band_sum(lines, Band::Teen, e.key@) == Some(e.quantities.teen)
    &&& band_sum(lines, Band::Adult, e.key@) == Some(e.quantities.adult)
}

/// The entries are those of the lines: one for each ingredient that is
/// listed, in the order of the keys.
pub open spec fn entries_of(entries: Seq<IngredientEntry>, lines: Seq<RawLineView>) -> bool {
    &&& forall|i: int| 0 <= i < entries.len() ==> entry_ok(#[trigger] entries[i], lines)
    &&& forall|i: int, j: int|
        #![trigger entries[i], entries[j]]
        0 <= i < j < entries.len() ==> text_lt(entries[i].key@, entries[j].key@)
    &&& forall|k: int|
        0 <= k < lines.len() ==> exists|i: int|
            0 <= i < entries.len() && (#[trigger] entries[i]).key@ == (#[trigger] lines[k]).key
}

/// The keys in order: sorted keys that are those of the lines stand in
/// strictly rising order.
proof fn lemma_sorted_keys(keys: Seq<KeyName>, sorted: Seq<KeyName>, lines: Seq<RawLineView>)
    requires
        keys_of(keys, lines),
        keys_distinct(keys),
        is_sorted(sorted),
        sorted.to_multiset() == keys.to_multiset(),
    ensures
        keys_of(sorted, lines),
        forall|i: int, j: int|
            #![trigger sorted[i], sorted[j]]
            0 <= i < j < sorted.len() ==> text_lt(sorted[i].name@, sorted[j].name@),
{
    broadcast use vstd::seq_lib::group_to_multiset_ensures;

    lemma_keys_distinct_rearranged(keys, sorted);
    assert forall|i: int| 0 <= i < sorted.len() implies key_listed(
        lines,
        (#[trigger] sorted[i]).name@,
    ) by {
        assert(sorted.to_multiset().contains(sorted[i]));
        assert(keys.to_multiset().contains(sorted[i]));
        let p = choose|p: int| 0 <= p < keys.len() && keys[p] == sorted[i];
        assert(key_listed(lines, keys[p].name@));
    }
    assert forall|k: int| 0 <= k < lines.len() implies has_key(sorted, (#[trigger] lines[k]).key) by {
        assert(has_key(keys, lines[k].key));
        let i = choose|i: int| 0 <= i < keys.len() && (#[trigger] keys[i]).name@ == lines[k].key;
        assert(keys.to_multiset().contains(keys[i]));
        assert(sorted.to_multiset().contains(keys[i]));
        let j = choose|j: int| 0 <= j < sorted.len() && sorted[j] == keys[i];
        assert(sorted[j].name@ == lines[k].key);
    }
    assert forall|i: int, j: int|
        #![trigger sorted[i], sorted[j]]
        0 <= i < j < sorted.len() implies text_lt(sorted[i].name@, sorted[j].name@) by {
        assert(sorted[i].precedes(&sorted[j]) || sorted[j].precedes(&sorted[i]));
        assert(!sorted[j].precedes(&sorted[i]));
    }
}

/// The raw quantities of the ingredients of a legacy recipe, one entry for
/// each key, in the order of the keys. `Overflow` where a sum cannot be
/// represented.
pub fn collect_entries(lines: &Vec<RawLine>) -> (r: Result<Vec<IngredientEntry>, ImportError>)
    requires
        lines_wf(views(lines@)),
    ensures
        match r {
            Ok(entries) => sums_fit(views(lines@)) && entries_of(entries@, views(lines@)),
            Err(e) => !sums_fit(views(lines@)),
        },
{
    let keys: Vec<KeyName> = distinct_keys(lines);
    let ghost unsorted: Seq<KeyName> = keys@;
    let sorted: Vec<KeyName> = sort_by_key(keys);
    let ghost all: Seq<RawLineView> = views(lines@);
    proof {
        lemma_sorted_keys(unsorted, sorted@, all);
    }
    let mut entries: Vec<IngredientEntry> = Vec::new();
    let mut i: usize = 0;
    while i < sorted.len()
        invariant
            i <= sorted@.len(),
            all == views(lines@),
            lines_wf(all),
            keys_of(sorted@, all),
            entries@.len() == i,
            forall|x: int| 0 <= x < i ==> entry_ok(#[trigger] entries@[x], all),
            forall|x: int| 0 <= x < i ==> (#[trigger] entries@[x]).key@ == sorted@[x].name@,
        decreases sorted@.len() - i,
    {
        let key: &str = sorted[i].name.as_str();
        let general = sum_band(lines, Band::General, key);
        let child = sum_band(lines, Band::Child, key);
        let teen = sum_band(lines, Band::Teen, key);
        let adult = sum_band(lines, Band::Adult, key);
        proof {
            assert(key_listed(all, sorted@[i as int].name@));
        }
        match (general, child, teen, adult) {
            (Some(g), Some(c), Some(t), Some(a)) => {
                entries.push(
                    IngredientEntry {
                        key: sorted[i].name.clone(),
                        quantities: RawQuantities { general: g, child: c, teen: t, adult: a },
                        unit: unit_of(lines, key),
                    },
                );
            },
            _ => {
                proof {
                    let k = choose|k: int|
                        0 <= k < all.len() && (#[trigger] all[k]).key == sorted@[i as int].name@;
                    assert(!key_sums_fit(all, all[k].key));
                }
                return Err(ImportError::Overflow);
            },
        }
        i += 1;
    }
    proof {
        let es = entries@;
        assert forall|a: int, b: int| #![trigger es[a], es[b]] 0 <= a < b < es.len() implies text_lt(
            es[a].key@,
            es[b].key@,
        ) by {
            assert(text_lt(sorted@[a].name@, sorted@[b].name@));
        }
        assert forall|k: int| 0 <= k < all.len() implies exists|x: int|
            0 <= x < es.len() && (#[trigger] es[x]).key@ == (#[trigger] all[k]).key by {
            assert(has_key(sorted@, all[k].key));
            let x = choose|x: int| 0 <= x < sorted@.len() && (#[trigger] sorted@[x]).name@ == all[k].key;
            assert(es[x].key@ == all[k].key);
        }
        assert forall|k: int| 0 <= k < all.len() implies key_sums_fit(
            all,
            (#[trigger] all[k]).key,
        ) by {
            let x = choose|x: int| 0 <= x < es.len() && (#[trigger] es[x]).key@ == all[k].key;
            assert(entry_ok(es[x], all));
        }
    }
    Ok(entries)
}

/// One ingredient line of a recipe as it is stored after the import: the
/// base quantity per person and the multipliers of the three age bands.
#[derive(Clone, Debug, PartialEq, Eq)]
pub struct NormalizedIngredient {
    pub ingredient_key: String,
    pub base_quantity: Ratio,
    pub unit: String,
    pub child_multiplier: Ratio,
    pub teen_multiplier: Ratio,
    pub adult_multiplier: Ratio,
}

/// The stored line of an entry with the given multipliers.
pub open spec fn row_of(e: IngredientEntry, m: Multipliers) -> NormalizedIngredient {
    NormalizedIngredient {
        ingredient_key: e.key,
        base_quantity: m.base_quantity,
        unit: e.unit,
        child_multiplier: m.child_multiplier,
        teen_multiplier: m.teen_multiplier,
        adult_multiplier: m.adult_multiplier,
    }
}

/// The stored lines of the entries, in the order of the entries; an entry
/// that is present in no band has no line.
pub open spec fn normalized_rows(entries: Seq<IngredientEntry>, porci: Ratio) -> Result<
    Seq<NormalizedIngredient>,
    ImportError,
>
    decreases entries.len(),
{
    if entries.len() == 0 {
        Ok(Seq::empty())
    } else {
        match (
            normalized_rows(entries.drop_last(), porci),
            normalized(entries.last().quantities, porci),
        ) {
            (Ok(rows), Ok(Some(m))) => Ok(rows.push(row_of(entries.last(), m))),
            (Ok(rows), Ok(None)) => Ok(rows),
            _ => Err(ImportError::Overflow),
        }
    }
}

/// Lines that cannot be stored after some entries cannot be stored after
/// more entries.
pub proof fn lemma_normalized_rows_error(entries: Seq<IngredientEntry>, n: int, porci: Ratio)
    requires
        0 <= n <= entries.len(),
        normalized_rows(entries.take(n), porci) is Err,
    ensures
        normalized_rows(entries, porci) is Err,
    decreases entries.len() - n,
{
    if n == entries.len() {
        assert(entries.take(n) =~= entries);
    } else {
        let t = entries.take(n + 1);
        assert(t.drop_last() =~= entries.take(n));
        lemma_normalized_rows_error(entries, n + 1, porci);
    }
}

/// The quantities of every entry are well formed.
pub open spec fn entries_wf(entries: Seq<IngredientEntry>) -> bool {
    forall|i: int| 0 <= i < entries.len() ==> (#[trigger] entries[i]).quantities.wf()
}

/// The stored lines of the entries for a recipe whose quantities are
/// written for `porci` people.
pub fn normalize_entries(entries: &Vec<IngredientEntry>, porci: &Ratio) -> (r: Result<
    Vec<NormalizedIngredient>,
    ImportError,
>)
    requires
        entries_wf(entries@),
        porci.wf(),
    ensures
        match r {
            Ok(rows) => normalized_rows(entries@, *porci) == Ok::<
                Seq<NormalizedIngredient>,
                ImportError,
            >(rows@),
            Err(e) => normalized_rows(entries@, *porci) is Err,
        },
{
    let mut rows: Vec<NormalizedIngredient> = Vec::new();
    let mut i: usize = 0;
    proof {
        assert(entries@.take(0) =~= Seq::<IngredientEntry>::empty());
    }
    while i < entries.len()
        invariant
            i <= entries@.len(),
            entries_wf(entries@),
            porci.wf(),
            normalized_rows(entries@.take(i as int), *porci) == Ok::<
                Seq<NormalizedIngredient>,
                ImportError,
            >(rows@),
        decreases entries@.len() - i,
    {
        let entry: &IngredientEntry = &entries[i];
        proof {
            let next = entries@.take(i + 1);
            assert(next.drop_last() =~= entries@.take(i as int));
            assert(next.last() == *entry);
            assert(entries@[i as int].quantities.wf());
        }
        match normalize_quantities(&entry.quantities, porci) {
            Err(e) => {
                proof {
                    lemma_normalized_rows_error(entries@, i + 1, *porci);
                }
                return Err(e);
            },
            Ok(None) => {},
            Ok(Some(m)) => {
                rows.push(
                    NormalizedIngredient {
                        ingredient_key: entry.key.clone(),
                        base_quantity: m.base_quantity,
                        unit: entry.unit.clone(),
                        child_multiplier: m.child_multiplier,
                        teen_multiplier: m.teen_multiplier,
                        adult_multiplier: m.adult_multiplier,
                    },
                );
            },
        }
        i += 1;
    }
    proof {
        assert(entries@.take(i as int) =~= entries@);
    }
    Ok(rows)
}

/// The rows are the stored lines of the legacy lines: there are entries of
/// the lines whose stored lines they are.
pub open spec fn rows_of(rows: Seq<NormalizedIngredient>, lines: Seq<RawLineView>, porci: Ratio)
    -> bool {
    exists|entries: Seq<IngredientEntry>|
        entries_of(entries, lines) && #[trigger] normalized_rows(entries, porci) == Ok::<
            Seq<NormalizedIngredient>,
            ImportError,
        >(rows)
}

/// The stored lines of the entries of the legacy lines cannot be
/// represented.
pub open spec fn rows_fail(lines: Seq<RawLineView>, porci: Ratio) -> bool {
    exists|entries: Seq<IngredientEntry>|
        entries_of(entries, lines) && (#[trigger] normalized_rows(entries, porci)) is Err
}

/// Normalises a legacy recipe: from its ingredient lines by age group and
/// the text of `porci`, the head count that they are written for, to one
/// stored line for each ingredient, in the order of the ingredients' keys.
///
/// A line that cannot be read is skipped, and so is an ingredient that is
/// present in no band. `Overflow` is returned where a quantity that is
/// written, a sum, or a stored quantity or multiplier cannot be
/// represented.
pub fn normalize_legacy_recipe(groups: &LegacyGroups, porci: &str) -> (r: Result<
    Vec<NormalizedIngredient>,
    ImportError,
>)
    ensures
        match r {
            Ok(rows) => {
                &&& legacy_lines(*groups) is Ok
                &&& sums_fit(legacy_lines(*groups)->Ok_0)
                &&& rows_of(rows@, legacy_lines(*groups)->Ok_0, porci_of(porci@))
            },
            Err(e) => {
                ||| legacy_lines(*groups) is Err
                ||| !sums_fit(legacy_lines(*groups)->Ok_0)
                ||| rows_fail(legacy_lines(*groups)->Ok_0, porci_of(porci@))
            },
        },
{
    let lines: Vec<RawLine> = match parse_groups(groups) {
        Err(e) => {
            return Err(e);
        },
        Ok(lines) => lines,
    };
    let entries: Vec<IngredientEntry> = match collect_entries(&lines) {
        Err(e) => {
            return Err(e);
        },
        Ok(entries) => entries,
    };
    let reference: Ratio = parse_porci(porci);
    proof {
        assert forall|i: int| 0 <= i < entries@.len() implies (
        #[trigger] entries@[i]).quantities.wf() by {
            assert(entry_ok(entries@[i], views(lines@)));
        }
    }
    proof {
        assert(entries_of(entries@, legacy_lines(*groups)->Ok_0));
    }
    match normalize_entries(&entries, &reference) {
        Ok(rows) => {
            proof {
                assert(normalized_rows(entries@, reference) == Ok::<
                    Seq<NormalizedIngredient>,
                    ImportError,
                >(rows@));
            }
            Ok(rows)
        },
        Err(e) => {
            proof {
                assert(normalized_rows(entries@, reference) is Err);
            }
            Err(e)
        },
    }
}

} // verus!
