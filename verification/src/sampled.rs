//! Sampled metrics, and what they come to over the whole time.
use crate::join::{grouped, ref_views, value_views, with_key, with_key_holds};
use crate::labels::{Labels, Pair};
use crate::model::{add_metric, Metric, MetricView};
use crate::number::{
    apply, arithmetic, count_value, is_arithmetic, sum_from, total_from, Number, Op,
};
use crate::order::{distinct_sorted, models};
use vstd::prelude::*;

verus! {

/// What is summarized together: the name, the unit and the labels of a metric.
pub type SubjectModel = (Seq<char>, (Seq<char>, Seq<Pair>));

type Subject = (String, (String, Labels));

pub open spec fn subject_of() -> spec_fn(MetricView) -> SubjectModel {
    |m: MetricView| (m.name, (m.unit, m.labels))
}

pub open spec fn sample_value() -> spec_fn(MetricView) -> Number {
    |m: MetricView| m.value
}

/// The mean of the samples of one subject.
pub open spec fn summary_of(f: spec_fn(Op) -> Number, samples: Seq<MetricView>) -> spec_fn(
    SubjectModel,
) -> MetricView {
    |k: SubjectModel|
        {
            let of = with_key(samples, subject_of(), k);
            MetricView {
                name: k.0,
                value: f(
                    Op::Divide(
                        total_from(f, Number::zero_spec(), of.map_values(sample_value())),
                        count_value(f, of.len()),
                    ),
                ),
                unit: k.1.0,
                timestamp: None,
                labels: k.1.1,
            }
        }
}

/// The means of all subjects, in their order.
pub open spec fn summaries(f: spec_fn(Op) -> Number, samples: Seq<MetricView>) -> Seq<MetricView> {
    distinct_sorted::<Subject>(samples.map_values(subject_of())).map_values(summary_of(f, samples))
}

/// Adds the mean of each subject after the samples.
pub fn append_metric_summaries<F: Fn(Op) -> Number>(metrics: &mut Vec<Metric>, compute: &F)
    requires
        is_arithmetic(*compute),
    ensures
        value_views(final(metrics)@) == value_views(old(metrics)@) + summaries(
            arithmetic(*compute),
            value_views(old(metrics)@),
        ),
{
    let ghost f = arithmetic(*compute);
    let ghost all = value_views(metrics@);
    let mut keys: Vec<Subject> = Vec::new();
    let mut i: usize = 0;
    while i < metrics.len()
        invariant
            i <= metrics@.len(),
            all == value_views(metrics@),
            *metrics == *old(metrics),
            models(keys@) == all.take(i as int).map_values(subject_of()),
        decreases metrics.len() - i,
    {
        let ghost was = keys@;
        keys.push((metrics[i].name.clone(), (metrics[i].unit.clone(), metrics[i].labels.clone())));
        assert(models(keys@) == models(was).push(subject_of()(all[i as int])));
        assert(all.take(i + 1).map_values(subject_of()) == all.take(i as int).map_values(
            subject_of(),
        ).push(subject_of()(all[i as int])));
        i += 1;
    }
    assert(all.take(i as int) == all);
    let mut more: Vec<Metric> = Vec::new();
    let ghost names = distinct_sorted::<Subject>(all.map_values(subject_of()));
    let ghost each = summary_of(f, all);
    let groups = grouped(metrics.as_slice(), &keys, Ghost(subject_of()));
    let mut g: usize = 0;
    assert(value_views(more@) == names.take(0).map_values(each));
    while g < groups.len()
        invariant
            is_arithmetic(*compute),
            f == arithmetic(*compute),
            g <= groups@.len(),
            each == summary_of(f, all),
            groups@.len() == names.len(),
            forall|h: int|
                0 <= h < groups@.len() ==> ref_views((#[trigger] groups@[h])@) == with_key(
                    all,
                    subject_of(),
                    names[h],
                ) && groups@[h]@.len() > 0,
            value_views(more@) == names.take(g as int).map_values(each),
        decreases groups.len() - g,
    {
        let members = &groups[g];
        let ghost k = names[g as int];
        let ghost part = ref_views(members@);
        proof {
            with_key_holds(all, subject_of(), k, 0);
            assert(part[0] == members@[0]@);
            assert(part.len() == members@.len());
        }
        let mut values: Vec<Number> = Vec::new();
        let mut j: usize = 0;
        while j < members.len()
            invariant
                j <= members@.len(),
                part == ref_views(members@),
                values@ == part.take(j as int).map_values(sample_value()),
            decreases members.len() - j,
        {
            values.push(members[j].value);
            assert(part[j as int] == members@[j as int]@);
            assert(part.take(j + 1).map_values(sample_value()) == part.take(j as int).map_values(
                sample_value(),
            ).push(part[j as int].value));
            j += 1;
        }
        assert(part.take(j as int) == part);
        let sum = sum_from(Number::zero(), values.as_slice(), compute);
        let count = apply(compute, Op::Integer(members.len() as i64));
        let mean = apply(compute, Op::Divide(sum, count));
        let first = members[0];
        add_metric(&mut more, first.name.as_str(), mean, first.unit.as_str(), None, &first.labels);
        assert(names.take(g + 1).map_values(each) == names.take(g as int).map_values(each).push(
            each(k),
        ));
        g += 1;
    }
    assert(names.take(g as int) == names);
    let ghost added = value_views(more@);
    let ghost before = metrics@;
    metrics.append(&mut more);
    assert(value_views(metrics@) == value_views(before) + added);
}

} // verus!
