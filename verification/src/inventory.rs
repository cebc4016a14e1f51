//! What metrics a run has.
use crate::brief::distinct_texts;
use crate::clock::{rfc3339, to_rfc3339};
use crate::join::{chain, grouped, ref_views, value_views, with_key, with_key_holds};
use crate::labels::{Labels, Pair};
use crate::model::{on_calendar, Metric, MetricView};
use crate::moment::Moment;
use crate::order::{distinct_sorted, models};
use crate::protocol::picked;
use crate::report::text_option;
use crate::series::timed_well;
use crate::text::texts;
use vstd::prelude::*;

verus! {

/// The values that a label has.
#[derive(Clone, Debug)]
pub struct LabelInventory {
    pub key: String,
    pub cardinality: usize,
    pub examples: Vec<String>,
}

#[verifier::ext_equal]
pub struct LabelInventoryView {
    pub key: Seq<char>,
    pub cardinality: nat,
    pub examples: Seq<Seq<char>>,
}

impl View for LabelInventory {
    type V = LabelInventoryView;

    open spec fn view(&self) -> LabelInventoryView {
        LabelInventoryView {
            key: self.key@,
            cardinality: self.cardinality as nat,
            examples: texts(self.examples@),
        }
    }
}

/// The metrics with one name.
#[derive(Clone, Debug)]
pub struct MetricInventory {
    pub name: String,
    pub rows: usize,
    pub timestamped_rows: usize,
    pub units: Vec<String>,
    pub first_observed_at: Option<String>,
    pub last_observed_at: Option<String>,
    pub labels: Vec<LabelInventory>,
}

#[verifier::ext_equal]
pub struct MetricInventoryView {
    pub name: Seq<char>,
    pub rows: nat,
    pub timestamped_rows: nat,
    pub units: Seq<Seq<char>>,
    pub first_observed_at: Option<Seq<char>>,
    pub last_observed_at: Option<Seq<char>>,
    pub labels: Seq<LabelInventoryView>,
}

impl View for MetricInventory {
    type V = MetricInventoryView;

    open spec fn view(&self) -> MetricInventoryView {
        MetricInventoryView {
            name: self.name@,
            rows: self.rows as nat,
            timestamped_rows: self.timestamped_rows as nat,
            units: texts(self.units@),
            first_observed_at: text_option(self.first_observed_at),
            last_observed_at: text_option(self.last_observed_at),
            labels: value_views(self.labels@),
        }
    }
}

pub open spec fn pick_time() -> spec_fn(MetricView) -> Option<int> {
    |m: MetricView|
        match m.timestamp {
            Some(at) => Some(at.nanos as int),
            None => None,
        }
}

/// The earliest of some times.
pub open spec fn earliest(times: Seq<int>) -> Option<int>
    decreases times.len(),
{
    if times.len() == 0 {
        None
    } else {
        match earliest(times.drop_last()) {
            Some(t) => Some(
                if t <= times.last() {
                    t
                } else {
                    times.last()
                },
            ),
            None => Some(times.last()),
        }
    }
}

/// The latest of some times.
pub open spec fn latest(times: Seq<int>) -> Option<int>
    decreases times.len(),
{
    if times.len() == 0 {
        None
    } else {
        match latest(times.drop_last()) {
            Some(t) => Some(
                if t >= times.last() {
                    t
                } else {
                    times.last()
                },
            ),
            None => Some(times.last()),
        }
    }
}

pub open spec fn written_time(nanos: Option<int>) -> Option<Seq<char>> {
    match nanos {
        Some(n) => Some(rfc3339(n)),
        None => None,
    }
}

pub open spec fn labels_of() -> spec_fn(MetricView) -> Seq<Pair> {
    |m: MetricView| m.labels
}

pub open spec fn label_name() -> spec_fn(Pair) -> Seq<char> {
    |p: Pair| p.0
}

pub open spec fn label_value() -> spec_fn(Pair) -> Seq<char> {
    |p: Pair| p.1
}

pub open spec fn unit_of() -> spec_fn(MetricView) -> Seq<char> {
    |m: MetricView| m.unit
}

pub open spec fn name_of() -> spec_fn(MetricView) -> Seq<char> {
    |m: MetricView| m.name
}

/// How many examples of a label are shown.
pub const EXAMPLES: usize = 4;

/// The values of one label.
pub open spec fn label_row(pairs: Seq<Pair>) -> spec_fn(Seq<char>) -> LabelInventoryView {
    |key: Seq<char>|
        {
            let values = distinct_sorted::<String>(
                with_key(pairs, label_name(), key).map_values(label_value()),
            );
            LabelInventoryView {
                key,
                cardinality: values.len(),
                examples: crate::enrichment::first_of(values, EXAMPLES as nat),
            }
        }
}

pub open spec fn label_rows(pairs: Seq<Pair>) -> Seq<LabelInventoryView> {
    distinct_sorted::<String>(pairs.map_values(label_name())).map_values(label_row(pairs))
}

/// What the metrics with one name are.
pub open spec fn inventory_row(name: Seq<char>, group: Seq<MetricView>) -> MetricInventoryView {
    let times = picked(group, pick_time());
    MetricInventoryView {
        name,
        rows: group.len(),
        timestamped_rows: times.len(),
        units: distinct_sorted::<String>(group.map_values(unit_of())),
        first_observed_at: written_time(earliest(times)),
        last_observed_at: written_time(latest(times)),
        labels: label_rows(chain(group.map_values(labels_of()))),
    }
}

/// All metrics of a run by name.
pub open spec fn inventory_of(metrics: Seq<MetricView>) -> Seq<MetricInventoryView> {
    distinct_sorted::<String>(metrics.map_values(name_of())).map_values(
        |name: Seq<char>| inventory_row(name, with_key(metrics, name_of(), name)),
    )
}

/// The labels of some metrics, one after the other.
#[derive(Clone, Debug)]
pub struct LabelPair {
    pub name: String,
    pub value: String,
}

impl View for LabelPair {
    type V = Pair;

    open spec fn view(&self) -> Pair {
        (self.name@, self.value@)
    }
}

fn collect_labels(group: &Vec<&Metric>) -> (r: Vec<LabelPair>)
    ensures
        value_views(r@) == chain(ref_views(group@).map_values(labels_of())),
{
    let ghost all = ref_views(group@).map_values(labels_of());
    let mut out: Vec<LabelPair> = Vec::new();
    let mut i: usize = 0;
    assert(all.take(0) == Seq::<Seq<Pair>>::empty());
    assert(value_views(out@) == chain(all.take(0)));
    while i < group.len()
        invariant
            i <= group@.len(),
            all == ref_views(group@).map_values(labels_of()),
            value_views(out@) == chain(all.take(i as int)),
        decreases group.len() - i,
    {
        let labels: &Labels = &group[i].labels;
        let ghost own = labels@;
        let ghost start = value_views(out@);
        assert(all[i as int] == own);
        assert(all.take(i + 1).drop_last() == all.take(i as int));
        assert(all.take(i + 1).last() == own);
        let count = labels.len();
        let mut j: usize = 0;
        assert(start + own.take(0) == start);
        while j < count
            invariant
                j <= count,
                count == own.len(),
                own == labels@,
                value_views(out@) == start + own.take(j as int),
            decreases count - j,
        {
            let ghost was = out@;
            let pair = LabelPair {
                name: labels.key(j).clone(),
                value: labels.value(j).clone(),
            };
            let ghost added = pair@;
            out.push(pair);
            assert(added == own[j as int]);
            assert(value_views(out@) == value_views(was).push(added));
            assert(start + own.take(j + 1) == (start + own.take(j as int)).push(own[j as int]));
            j += 1;
        }
        assert(own.take(j as int) == own);
        i += 1;
    }
    assert(all.take(i as int) == all);
    out
}

pub fn pair_names(pairs: &Vec<LabelPair>) -> (r: Vec<String>)
    ensures
        texts(r@) == value_views(pairs@).map_values(label_name()),
{
    let ghost all = value_views(pairs@).map_values(label_name());
    let mut out: Vec<String> = Vec::new();
    let mut i: usize = 0;
    assert(texts(out@) == all.take(0));
    while i < pairs.len()
        invariant
            i <= pairs@.len(),
            all == value_views(pairs@).map_values(label_name()),
            texts(out@) == all.take(i as int),
        decreases pairs.len() - i,
    {
        assert(all[i as int] == pairs@[i as int].name@);
        crate::config::push_text(&mut out, pairs[i].name.as_str());
        assert(all.take(i + 1) == all.take(i as int).push(all[i as int]));
        i += 1;
    }
    assert(all.take(i as int) == all);
    out
}

pub fn pair_values(pairs: &Vec<&LabelPair>) -> (r: Vec<String>)
    ensures
        texts(r@) == ref_views(pairs@).map_values(label_value()),
{
    let ghost all = ref_views(pairs@).map_values(label_value());
    let mut out: Vec<String> = Vec::new();
    let mut i: usize = 0;
    assert(texts(out@) == all.take(0));
    while i < pairs.len()
        invariant
            i <= pairs@.len(),
            all == ref_views(pairs@).map_values(label_value()),
            texts(out@) == all.take(i as int),
        decreases pairs.len() - i,
    {
        assert(all[i as int] == pairs@[i as int].value@);
        crate::config::push_text(&mut out, pairs[i].value.as_str());
        assert(all.take(i + 1) == all.take(i as int).push(all[i as int]));
        i += 1;
    }
    assert(all.take(i as int) == all);
    out
}

fn make_label_rows(pairs: &Vec<LabelPair>) -> (r: Vec<LabelInventory>)
    ensures
        value_views(r@) == label_rows(value_views(pairs@)),
{
    let keys = pair_names(pairs);
    let ghost all = value_views(pairs@);
    let ghost key = label_name();
    assert(models(keys@) == texts(keys@));
    let groups = grouped(pairs.as_slice(), &keys, Ghost(key));
    let ghost names = distinct_sorted::<String>(all.map_values(key));
    let ghost rows = names.map_values(label_row(all));
    let mut out: Vec<LabelInventory> = Vec::new();
    let mut g: usize = 0;
    assert(value_views(out@) == rows.take(0));
    while g < groups.len()
        invariant
            g <= groups@.len(),
            all == value_views(pairs@),
            key == label_name(),
            names == distinct_sorted::<String>(all.map_values(key)),
            rows == names.map_values(label_row(all)),
            groups@.len() == names.len(),
            forall|j: int|
                0 <= j < groups@.len() ==> ref_views((#[trigger] groups@[j])@) == with_key(
                    all,
                    key,
                    names[j],
                ) && groups@[j]@.len() > 0,
            value_views(out@) == rows.take(g as int),
        decreases groups.len() - g,
    {
        let group = &groups[g];
        let ghost k = names[g as int];
        proof {
            with_key_holds(all, key, k, 0);
            assert(ref_views(group@)[0] == group@[0]@);
        }
        let values = distinct_texts(&pair_values(group));
        let ghost shown = texts(values@);
        assert(shown.len() == values@.len());
        let cardinality = values.len();
        let mut examples = values;
        if examples.len() > EXAMPLES {
            examples.truncate(EXAMPLES);
            assert(texts(examples@) == shown.take(EXAMPLES as int));
        }
        let ghost was = out@;
        let row = LabelInventory { key: group[0].name.clone(), cardinality, examples };
        let ghost added = row@;
        assert(added == label_row(all)(k));
        out.push(row);
        assert(value_views(out@) == value_views(was).push(added));
        assert(rows.take(g + 1) == rows.take(g as int).push(rows[g as int]));
        g += 1;
    }
    assert(rows.take(g as int) == rows);
    out
}

struct Times {
    count: usize,
    first: Option<Moment>,
    last: Option<Moment>,
}

spec fn nanos_of(at: Option<Moment>) -> Option<int> {
    match at {
        Some(t) => Some(t.nanos as int),
        None => None,
    }
}

fn collect_times(group: &Vec<&Metric>) -> (r: Times)
    requires
        forall|i: int| 0 <= i < group@.len() ==> on_calendar((#[trigger] group@[i]).timestamp),
    ensures
        ({
            let times = picked(ref_views(group@), pick_time());
            &&& r.count == times.len()
            &&& nanos_of(r.first) == earliest(times)
            &&& nanos_of(r.last) == latest(times)
            &&& on_calendar(r.first)
            &&& on_calendar(r.last)
        }),
{
    let ghost all = ref_views(group@);
    let mut out = Times { count: 0, first: None, last: None };
    let mut i: usize = 0;
    assert(all.take(0) == Seq::<MetricView>::empty());
    while i < group.len()
        invariant
            i <= group@.len(),
            all == ref_views(group@),
            forall|j: int| 0 <= j < group@.len() ==> on_calendar((#[trigger] group@[j]).timestamp),
            out.count == picked(all.take(i as int), pick_time()).len(),
            out.count <= i,
            nanos_of(out.first) == earliest(picked(all.take(i as int), pick_time())),
            nanos_of(out.last) == latest(picked(all.take(i as int), pick_time())),
            on_calendar(out.first),
            on_calendar(out.last),
        decreases group.len() - i,
    {
        let ghost times = picked(all.take(i as int), pick_time());
        proof {
            assert(all[i as int] == group@[i as int]@);
            assert(all.take(i + 1).drop_last() == all.take(i as int));
            assert(all.take(i + 1).last() == group@[i as int]@);
            assert(on_calendar(group@[i as int].timestamp));
        }
        match group[i].timestamp {
            Some(at) => {
                assert(times.push(at.nanos as int).drop_last() == times);
                out.count = out.count + 1;
                out.first = match out.first {
                    Some(t) => Some(
                        if t.nanos <= at.nanos {
                            t
                        } else {
                            at
                        },
                    ),
                    None => Some(at),
                };
                out.last = match out.last {
                    Some(t) => Some(
                        if t.nanos >= at.nanos {
                            t
                        } else {
                            at
                        },
                    ),
                    None => Some(at),
                };
            },
            None => {},
        }
        i += 1;
    }
    assert(all.take(i as int) == all);
    out
}

fn time_of(at: Option<Moment>) -> (r: Option<String>)
    requires
        on_calendar(at),
    ensures
        text_option(r) == written_time(nanos_of(at)),
{
    match at {
        Some(t) => Some(to_rfc3339(t)),
        None => None,
    }
}

fn units_of(group: &Vec<&Metric>) -> (r: Vec<String>)
    ensures
        texts(r@) == distinct_sorted::<String>(ref_views(group@).map_values(unit_of())),
{
    let ghost all = ref_views(group@).map_values(unit_of());
    let mut list: Vec<String> = Vec::new();
    let mut i: usize = 0;
    assert(texts(list@) == all.take(0));
    while i < group.len()
        invariant
            i <= group@.len(),
            all == ref_views(group@).map_values(unit_of()),
            texts(list@) == all.take(i as int),
        decreases group.len() - i,
    {
        assert(all[i as int] == group@[i as int].unit@);
        crate::config::push_text(&mut list, group[i].unit.as_str());
        assert(all.take(i + 1) == all.take(i as int).push(all[i as int]));
        i += 1;
    }
    assert(all.take(i as int) == all);
    distinct_texts(&list)
}

fn metric_names(metrics: &Vec<Metric>) -> (r: Vec<String>)
    ensures
        texts(r@) == value_views(metrics@).map_values(name_of()),
{
    let ghost all = value_views(metrics@).map_values(name_of());
    let mut out: Vec<String> = Vec::new();
    let mut i: usize = 0;
    assert(texts(out@) == all.take(0));
    while i < metrics.len()
        invariant
            i <= metrics@.len(),
            all == value_views(metrics@).map_values(name_of()),
            texts(out@) == all.take(i as int),
        decreases metrics.len() - i,
    {
        assert(all[i as int] == metrics@[i as int].name@);
        crate::config::push_text(&mut out, metrics[i].name.as_str());
        assert(all.take(i + 1) == all.take(i as int).push(all[i as int]));
        i += 1;
    }
    assert(all.take(i as int) == all);
    out
}

/// A metric of a group is one of the metrics, and so its time lies in the calendar.
proof fn group_times(metrics: Seq<Metric>, group: Seq<&Metric>, k: Seq<char>, i: int)
    requires
        timed_well(metrics),
        ref_views(group) == with_key(value_views(metrics), name_of(), k),
        0 <= i < group.len(),
    ensures
        on_calendar(group[i].timestamp),
        group[i].name@ == k,
{
    let all = value_views(metrics);
    with_key_holds(all, name_of(), k, i);
    assert(ref_views(group)[i] == group[i]@);
    let j = choose|j: int| 0 <= j < all.len() && all[j] == group[i]@;
    assert(metrics[j]@ == group[i]@);
}

/// Lists the metrics of a run by name.
pub fn show_metrics(metrics: &Vec<Metric>) -> (r: Vec<MetricInventory>)
    requires
        timed_well(metrics@),
    ensures
        value_views(r@) == inventory_of(value_views(metrics@)),
{
    let keys = metric_names(metrics);
    let ghost all = value_views(metrics@);
    let ghost key = name_of();
    assert(models(keys@) == texts(keys@));
    let groups = grouped(metrics.as_slice(), &keys, Ghost(key));
    let ghost names = distinct_sorted::<String>(all.map_values(key));
    let ghost each = |name: Seq<char>| inventory_row(name, with_key(all, name_of(), name));
    let ghost rows = names.map_values(each);
    let mut out: Vec<MetricInventory> = Vec::new();
    let mut g: usize = 0;
    assert(value_views(out@) == rows.take(0));
    while g < groups.len()
        invariant
            g <= groups@.len(),
            timed_well(metrics@),
            all == value_views(metrics@),
            key == name_of(),
            names == distinct_sorted::<String>(all.map_values(key)),
            each == (|name: Seq<char>| inventory_row(name, with_key(all, name_of(), name))),
            rows == names.map_values(each),
            groups@.len() == names.len(),
            forall|j: int|
                0 <= j < groups@.len() ==> ref_views((#[trigger] groups@[j])@) == with_key(
                    all,
                    key,
                    names[j],
                ) && groups@[j]@.len() > 0,
            value_views(out@) == rows.take(g as int),
        decreases groups.len() - g,
    {
        let group = &groups[g];
        let ghost k = names[g as int];
        proof {
            assert(ref_views(group@) == with_key(all, key, k));
            assert forall|i: int| 0 <= i < group@.len() implies on_calendar(
                (#[trigger] group@[i]).timestamp,
            ) by {
                group_times(metrics@, group@, k, i);
            }
            group_times(metrics@, group@, k, 0);
            assert(ref_views(group@).len() == group@.len());
        }
        let times = collect_times(group);
        let pairs = collect_labels(group);
        let row = MetricInventory {
            name: group[0].name.clone(),
            rows: group.len(),
            timestamped_rows: times.count,
            units: units_of(group),
            first_observed_at: time_of(times.first),
            last_observed_at: time_of(times.last),
            labels: make_label_rows(&pairs),
        };
        let ghost was = out@;
        let ghost added = row@;
        assert(added == each(k));
        out.push(row);
        assert(value_views(out@) == value_views(was).push(added));
        assert(rows.take(g + 1) == rows.take(g as int).push(rows[g as int]));
        g += 1;
    }
    assert(rows.take(g as int) == rows);
    out
}

} // verus!
