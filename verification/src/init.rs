//! The files of a new project.
use crate::config::push_text;
use crate::join::value_views;
use crate::paths::{join_path, joined_path};
use crate::text::{
    append_str, chars_of, glue2, join, joined, replace, replaced, starts, string_of, texts, views,
};
use vstd::prelude::*;

verus! {

/// Values that differ per project. `init` fills them with defaults; a project template passes the
/// paths that it installed. The collectors themselves stay one file.
#[derive(Clone, Debug)]
pub struct ConfigOptions {
    pub data_dir: String,
    pub nginx_access_log: String,
    pub mysql_slow_log: String,
    pub service_units: Vec<String>,
    pub sample_output: Option<String>,
    /// Append commented `[lock]`, `[ssh]` and `[[nodes]]` examples. A project that adds its
    /// own sections turns this off to avoid duplicate tables.
    pub scaffold: bool,
}

/// The usual values of a configuration.
pub open spec fn usual(options: ConfigOptions) -> bool {
    &&& options.data_dir@ == ".isuscope/data"@
    &&& options.nginx_access_log@ == "/var/log/nginx/access.log"@
    &&& options.mysql_slow_log@ == "/var/log/mysql/mysql-slow.log"@
    &&& options.service_units@.len() == 0
    &&& options.sample_output is None
    &&& options.scaffold
}

impl Default for ConfigOptions {
    fn default() -> (r: ConfigOptions)
        ensures
            usual(r),
    {
        ConfigOptions {
            data_dir: ".isuscope/data".to_owned(),
            nginx_access_log: "/var/log/nginx/access.log".to_owned(),
            mysql_slow_log: "/var/log/mysql/mysql-slow.log".to_owned(),
            service_units: Vec::new(),
            sample_output: None,
            scaffold: true,
        }
    }
}

/// The examples that a new configuration ends with.
pub const SCAFFOLD: &'static str = "\n# deployなどと共有する変更系操作のlock。runとsurvey-runはベンチ中これを保持します。\n# [lock]\n# path = \".local/operation.lock\"\n\n[ssh]\nuser = \"ubuntu\"\nconnect_timeout_seconds = 5\n# collectorが運ぶlog差分はtextで、ベンチ後のnodeは空いている。既定で圧縮します。\n# compression = true\n# projectのknown_hostsを使う場合に指定します。未登録hostは初回だけ受け入れて固定します。\n# known_hosts_file = \".local/known-hosts\"\n\n# [[nodes]]はSETUP.mdの手順に従って追加します。roleを指定しない標準collectorは設定した\n# 全nodeで、roleを指定したcollectorはそのroleを持つnodeだけで動きます。\n# [[nodes]]\n# name = \"app1\"\n# host = \"10.0.0.1\"\n# roles = [\"app\", \"nginx\", \"db\"]\n\n# benchmarker自身が動くnodeを書く場合は`rule_side = true`を付けます。collectorもdisk検査も\n# そのnodeでは動かず、ベンチ側を計測しません。\n# [[nodes]]\n# name = \"bench\"\n# host = \"10.0.0.9\"\n# rule_side = true\n";

/// A text in double quotes, as the formatter of `std` writes it for debugging.
pub uninterp spec fn debug_text(text: Seq<char>) -> Seq<char>;

/// `Debug` of a text: what it writes depends on the text alone.
#[verifier::external_body]
fn debug(text: &str) -> (r: String)
    ensures
        r@ == debug_text(text@),
{
    format!("{text:?}")
}

/// The values of a project as they are written into the template.
#[derive(Debug)]
pub struct Written {
    pub units: Vec<String>,
    pub sample_output: Option<String>,
}

pub open spec fn sample_line(sample_output: Option<Seq<char>>) -> Seq<char> {
    match sample_output {
        Some(path) => "sample_output = "@ + path,
        None => "# sample_output = \"config/benchmark-sample.log\""@,
    }
}

/// The template with the values of a project in their places.
pub open spec fn filled(
    template: Seq<char>,
    options: ConfigOptions,
    units: Seq<Seq<char>>,
    sample_output: Option<Seq<char>>,
) -> Seq<char> {
    let a = replace(template, "@@DATA_DIR@@"@, options.data_dir@);
    let b = replace(a, "@@NGINX_ACCESS_LOG@@"@, options.nginx_access_log@);
    let c = replace(b, "@@MYSQL_SLOW_LOG@@"@, options.mysql_slow_log@);
    let d = replace(c, "@@SERVICE_UNITS@@"@, join(units, ", "@));
    let e = replace(d, "@@SAMPLE_OUTPUT@@"@, sample_line(sample_output));
    if options.scaffold {
        e + SCAFFOLD@
    } else {
        e
    }
}

fn put(text: &[char], place: &str, value: &str) -> (r: Vec<char>)
    ensures
        r@ == replace(text@, place@, value@),
{
    replaced(text, chars_of(place).as_slice(), chars_of(value).as_slice())
}

fn comma_list(items: &Vec<String>) -> (r: String)
    ensures
        r@ == join(texts(items@), ", "@),
{
    let ghost all = texts(items@);
    let mut parts: Vec<Vec<char>> = Vec::new();
    let mut i: usize = 0;
    assert(views(parts@) == all.take(0));
    while i < items.len()
        invariant
            i <= items@.len(),
            all == texts(items@),
            views(parts@) == all.take(i as int),
        decreases items.len() - i,
    {
        let ghost was = parts@;
        let part = chars_of(items[i].as_str());
        let ghost added = part@;
        parts.push(part);
        assert(views(parts@) == views(was).push(added));
        assert(all[i as int] == added);
        assert(all.take(i + 1) == all.take(i as int).push(all[i as int]));
        i += 1;
    }
    assert(all.take(i as int) == all);
    string_of(joined(parts.as_slice(), chars_of(", ").as_slice()).as_slice())
}

/// Puts the values of a project into the template, with the units and the sample quoted already.
pub fn fill_config(options: &ConfigOptions, template: &str, values: &Written) -> (r: String)
    ensures
        r@ == filled(
            template@,
            *options,
            texts(values.units@),
            crate::report::text_option(values.sample_output),
        ),
{
    let units = comma_list(&values.units);
    let sample = match &values.sample_output {
        Some(path) => glue2("sample_output = ", path.as_str()),
        None => "# sample_output = \"config/benchmark-sample.log\"".to_owned(),
    };
    let a = put(chars_of(template).as_slice(), "@@DATA_DIR@@", options.data_dir.as_str());
    let b = put(a.as_slice(), "@@NGINX_ACCESS_LOG@@", options.nginx_access_log.as_str());
    let c = put(b.as_slice(), "@@MYSQL_SLOW_LOG@@", options.mysql_slow_log.as_str());
    let d = put(c.as_slice(), "@@SERVICE_UNITS@@", units.as_str());
    let mut e = put(d.as_slice(), "@@SAMPLE_OUTPUT@@", sample.as_str());
    if options.scaffold {
        append_str(&mut e, SCAFFOLD);
    }
    string_of(e.as_slice())
}

pub open spec fn quoted_all(items: Seq<Seq<char>>) -> Seq<Seq<char>> {
    items.map_values(|item: Seq<char>| debug_text(item))
}

pub open spec fn quoted_option(item: Option<Seq<char>>) -> Option<Seq<char>> {
    match item {
        Some(text) => Some(debug_text(text)),
        None => None,
    }
}

/// The configuration of a project.
pub open spec fn rendered(options: ConfigOptions, template: Seq<char>) -> Seq<char> {
    filled(
        template,
        options,
        quoted_all(texts(options.service_units@)),
        quoted_option(crate::report::text_option(options.sample_output)),
    )
}

/// Writes the configuration of a project.
pub fn render_config(options: &ConfigOptions, template: &str) -> (r: String)
    ensures
        r@ == rendered(*options, template@),
{
    let ghost all = quoted_all(texts(options.service_units@));
    let mut units: Vec<String> = Vec::new();
    let mut i: usize = 0;
    assert(texts(units@) == all.take(0));
    while i < options.service_units.len()
        invariant
            i <= options.service_units@.len(),
            all == quoted_all(texts(options.service_units@)),
            texts(units@) == all.take(i as int),
        decreases options.service_units.len() - i,
    {
        let unit = debug(options.service_units[i].as_str());
        assert(all[i as int] == unit@);
        push_text(&mut units, unit.as_str());
        assert(all.take(i + 1) == all.take(i as int).push(all[i as int]));
        i += 1;
    }
    assert(all.take(i as int) == all);
    let sample_output = match &options.sample_output {
        Some(path) => Some(debug(path.as_str())),
        None => None,
    };
    fill_config(options, template, &Written { units, sample_output })
}

/// With its examples a configuration is what it is without them, and then the examples.
pub proof fn examples_come_last(template: Seq<char>, with: ConfigOptions, without: ConfigOptions)
    requires
        with == (ConfigOptions { scaffold: true, ..without }),
        !without.scaffold,
    ensures
        rendered(with, template) == rendered(without, template) + SCAFFOLD@,
{
}

/// A part of a template: text as it stands, or the place of a value.
pub enum Part {
    Text(Seq<char>),
    Place(int),
}

/// How the place of a value is written.
pub open spec fn place_name(place: int) -> Seq<char> {
    if place == 0 {
        "@@DATA_DIR@@"@
    } else if place == 1 {
        "@@NGINX_ACCESS_LOG@@"@
    } else if place == 2 {
        "@@MYSQL_SLOW_LOG@@"@
    } else if place == 3 {
        "@@SERVICE_UNITS@@"@
    } else {
        "@@SAMPLE_OUTPUT@@"@
    }
}

/// What is written in each place.
pub open spec fn place_value(
    options: ConfigOptions,
    units: Seq<Seq<char>>,
    sample_output: Option<Seq<char>>,
    place: int,
) -> Seq<char> {
    if place == 0 {
        options.data_dir@
    } else if place == 1 {
        options.nginx_access_log@
    } else if place == 2 {
        options.mysql_slow_log@
    } else if place == 3 {
        join(units, ", "@)
    } else {
        sample_line(sample_output)
    }
}

/// Two marks in a row stand nowhere in the text.
pub open spec fn no_marks(s: Seq<char>) -> bool {
    forall|i: int| #![trigger s[i]] 0 <= i && i + 1 < s.len() ==> !(s[i] == '@' && s[i + 1] == '@')
}

/// The parts of a template: no text holds a mark or begins with a capital letter, and there is
/// text between two places.
pub open spec fn well_parted(parts: Seq<Part>) -> bool
    decreases parts.len(),
{
    if parts.len() == 0 {
        true
    } else {
        &&& match parts[0] {
            Part::Text(t) => t.len() > 0 && !t.contains('@') && !('A' <= t[0] <= 'Z'),
            Part::Place(k) => 0 <= k < 5 && (parts.len() > 1 ==> parts[1] is Text),
        }
        &&& well_parted(parts.skip(1))
    }
}

/// The text of the parts, with the values in the first `done` kinds of places.
pub open spec fn written_parts(parts: Seq<Part>, values: spec_fn(int) -> Seq<char>, done: int) -> Seq<
    char,
>
    decreases parts.len(),
{
    if parts.len() == 0 {
        Seq::empty()
    } else {
        (match parts[0] {
            Part::Text(t) => t,
            Part::Place(k) => if k < done {
                values(k)
            } else {
                place_name(k)
            },
        }) + written_parts(parts.skip(1), values, done)
    }
}

/// What a place needs of what follows it.
spec fn follows(s: Seq<char>) -> bool {
    s.len() > 0 ==> s[0] != '@' && !('A' <= s[0] <= 'Z')
}

proof fn places_are_marked(k: int)
    requires
        0 <= k < 5,
    ensures
        ({
            let p = place_name(k);
            &&& p.len() >= 12
            &&& p[0] == '@' && p[1] == '@' && p[p.len() - 1] == '@' && p[p.len() - 2] == '@'
            &&& forall|i: int| 2 <= i < p.len() - 2 ==> #[trigger] p[i] != '@'
            &&& 'A' <= p[2] <= 'Z'
        }),
{
    reveal_strlit("@@DATA_DIR@@");
    reveal_strlit("@@NGINX_ACCESS_LOG@@");
    reveal_strlit("@@MYSQL_SLOW_LOG@@");
    reveal_strlit("@@SERVICE_UNITS@@");
    reveal_strlit("@@SAMPLE_OUTPUT@@");
}

proof fn places_differ(k: int, l: int)
    requires
        0 <= k < 5,
        0 <= l < 5,
        k != l,
    ensures
        place_name(k)[2] != place_name(l)[2] || place_name(k)[3] != place_name(l)[3],
{
    reveal_strlit("@@DATA_DIR@@");
    reveal_strlit("@@NGINX_ACCESS_LOG@@");
    reveal_strlit("@@MYSQL_SLOW_LOG@@");
    reveal_strlit("@@SERVICE_UNITS@@");
    reveal_strlit("@@SAMPLE_OUTPUT@@");
}

/// Text without two marks in a row is passed over.
proof fn text_is_passed(text: Seq<char>, rest: Seq<char>, k: int, value: Seq<char>)
    requires
        0 <= k < 5,
        no_marks(text),
        text.len() > 0 && rest.len() > 0 ==> !(text.last() == '@' && rest[0] == '@'),
    ensures
        replace(text + rest, place_name(k), value) == text + replace(rest, place_name(k), value),
    decreases text.len(),
{
    let p = place_name(k);
    places_are_marked(k);
    if text.len() == 0 {
        assert(text + rest == rest);
        assert(text + replace(rest, p, value) == replace(rest, p, value));
    } else {
        let s = text + rest;
        let tail = text.skip(1);
        assert forall|i: int| #![trigger tail[i]] 0 <= i && i + 1 < tail.len() implies !(tail[i]
            == '@' && tail[i + 1] == '@') by {
            assert(tail[i] == text[i + 1]);
        }
        text_is_passed(tail, rest, k, value);
        assert(s.skip(1) == tail + rest);
        if starts(s, p) {
            assert(s.take(p.len() as int)[0] == '@' && s.take(p.len() as int)[1] == '@');
            assert(s[0] == '@' && s[1] == '@');
            if text.len() == 1 {
                assert(s[1] == rest[0]);
            } else {
                assert(text[0] == '@' && text[1] == '@');
            }
            assert(false);
        }
        if s.len() < p.len() {
            assert(replace(rest, p, value) == rest);
        } else {
            assert(replace(s, p, value) == seq![s[0]] + replace(s.skip(1), p, value));
            assert(seq![s[0]] + (tail + replace(rest, p, value)) == text + replace(rest, p, value));
        }
    }
}

/// The end of another place is passed over.
proof fn place_end_is_passed(l: int, i: int, rest: Seq<char>, k: int, value: Seq<char>)
    requires
        0 <= k < 5,
        0 <= l < 5,
        1 <= i <= place_name(l).len(),
        follows(rest),
    ensures
        replace(place_name(l).skip(i) + rest, place_name(k), value) == place_name(l).skip(i)
            + replace(rest, place_name(k), value),
    decreases place_name(l).len() - i,
{
    let p = place_name(k);
    let q = place_name(l);
    places_are_marked(k);
    places_are_marked(l);
    let s = q.skip(i) + rest;
    if i == q.len() {
        assert(q.skip(i) + rest == rest);
        assert(q.skip(i) + replace(rest, p, value) == replace(rest, p, value));
    } else {
        place_end_is_passed(l, i + 1, rest, k, value);
        assert(s.skip(1) == q.skip(i + 1) + rest);
        assert(s[0] == q[i]);
        if starts(s, p) {
            let head = s.take(p.len() as int);
            assert(head[0] == '@' && head[1] == '@' && 'A' <= head[2] <= 'Z');
            if i + 1 < q.len() {
                assert(s[1] == q[i + 1]);
                if i + 2 < q.len() {
                    assert(q[i] == '@' && q[i + 1] == '@');
                    assert(false);
                } else {
                    assert(s[2] == rest[0]);
                    assert(false);
                }
            } else {
                assert(s[1] == rest[0]);
                assert(false);
            }
        }
        if s.len() < p.len() {
            assert(replace(rest, p, value) == rest);
        } else {
            assert(seq![s[0]] + (q.skip(i + 1) + replace(rest, p, value)) == q.skip(i) + replace(
                rest,
                p,
                value,
            ));
        }
    }
}

/// A place gets its value, and another place stays.
proof fn place_is_filled(l: int, rest: Seq<char>, k: int, value: Seq<char>)
    requires
        0 <= k < 5,
        0 <= l < 5,
        follows(rest),
    ensures
        replace(place_name(l) + rest, place_name(k), value) == (if k == l {
            value
        } else {
            place_name(l)
        }) + replace(rest, place_name(k), value),
{
    let p = place_name(k);
    let q = place_name(l);
    places_are_marked(k);
    places_are_marked(l);
    let s = q + rest;
    if k == l {
        assert(s.take(p.len() as int) == p);
        assert(s.skip(p.len() as int) == rest);
    } else {
        places_differ(k, l);
        if starts(s, p) {
            let head = s.take(p.len() as int);
            assert(head[2] == s[2] && head[3] == s[3]);
            assert(false);
        }
        place_end_is_passed(l, 1, rest, k, value);
        assert(s.skip(1) == q.skip(1) + rest);
        if s.len() < p.len() {
            assert(replace(rest, p, value) == rest);
        } else {
            assert(seq![s[0]] + (q.skip(1) + replace(rest, p, value)) == q + replace(
                rest,
                p,
                value,
            ));
        }
    }
}

/// Filling one kind of place is one step of the writing.
proof fn one_kind_is_filled(parts: Seq<Part>, values: spec_fn(int) -> Seq<char>, k: int)
    requires
        0 <= k < 5,
        well_parted(parts),
        forall|i: int| 0 <= i < 5 ==> no_marks(#[trigger] values(i)),
    ensures
        replace(written_parts(parts, values, k), place_name(k), values(k)) == written_parts(
            parts,
            values,
            k + 1,
        ),
    decreases parts.len(),
{
    let rest = parts.skip(1);
    let p = place_name(k);
    places_are_marked(k);
    if parts.len() > 0 {
        one_kind_is_filled(rest, values, k);
        let after = written_parts(rest, values, k);
        match parts[0] {
            Part::Text(t) => {
                assert forall|i: int| #![trigger t[i]] 0 <= i && i + 1 < t.len() implies !(t[i]
                    == '@' && t[i + 1] == '@') by {
                    assert(t.contains(t[i]));
                }
                assert(t.contains(t.last()));
                text_is_passed(t, after, k, values(k));
            },
            Part::Place(l) => {
                assert(follows(after)) by {
                    if rest.len() > 0 {
                        assert(rest[0] == parts[1]);
                        match rest[0] {
                            Part::Text(t) => {
                                assert(t.contains(t[0]));
                                assert(after[0] == t[0]);
                            },
                            Part::Place(_) => {},
                        }
                    }
                }
                if l < k {
                    text_is_passed(values(l), after, k, values(k));
                } else {
                    place_is_filled(l, after, k, values(k));
                }
            },
        }
    }
}

/// Written parts hold no two marks in a row.
proof fn no_marks_are_left(parts: Seq<Part>, values: spec_fn(int) -> Seq<char>)
    requires
        well_parted(parts),
        forall|i: int| 0 <= i < 5 ==> no_marks(#[trigger] values(i)),
    ensures
        no_marks(written_parts(parts, values, 5)),
        parts.len() > 0 && parts[0] is Text ==> follows(written_parts(parts, values, 5)),
    decreases parts.len(),
{
    if parts.len() > 0 {
        let rest = parts.skip(1);
        no_marks_are_left(rest, values);
        let after = written_parts(rest, values, 5);
        let all = written_parts(parts, values, 5);
        match parts[0] {
            Part::Text(t) => {
                assert forall|i: int| #![trigger all[i]] 0 <= i && i + 1 < all.len() implies !(
                all[i] == '@' && all[i + 1] == '@') by {
                    if i < t.len() {
                        assert(t.contains(t[i]));
                    } else {
                        assert(all[i] == after[i - t.len()]);
                        assert(all[i + 1] == after[i - t.len() + 1]);
                    }
                }
                assert(t.contains(t[0]));
            },
            Part::Place(k) => {
                let v = values(k);
                if rest.len() > 0 {
                    assert(rest[0] == parts[1]);
                }
                assert forall|i: int| #![trigger all[i]] 0 <= i && i + 1 < all.len() implies !(
                all[i] == '@' && all[i + 1] == '@') by {
                    if i + 1 < v.len() {
                        assert(all[i] == v[i] && all[i + 1] == v[i + 1]);
                    } else if i < v.len() {
                        assert(all[i + 1] == after[0]);
                    } else {
                        assert(all[i] == after[i - v.len()]);
                        assert(all[i + 1] == after[i - v.len() + 1]);
                    }
                }
            },
        }
    }
}

/// The examples hold no two marks in a row.
proof fn examples_hold_no_marks()
    ensures
        !SCAFFOLD@.contains('@'),
        SCAFFOLD@.len() > 0,
{
    reveal_strlit("\n# deployなどと共有する変更系操作のlock。runとsurvey-runはベンチ中これを保持します。\n# [lock]\n# path = \".local/operation.lock\"\n\n[ssh]\nuser = \"ubuntu\"\nconnect_timeout_seconds = 5\n# collectorが運ぶlog差分はtextで、ベンチ後のnodeは空いている。既定で圧縮します。\n# compression = true\n# projectのknown_hostsを使う場合に指定します。未登録hostは初回だけ受け入れて固定します。\n# known_hosts_file = \".local/known-hosts\"\n\n# [[nodes]]はSETUP.mdの手順に従って追加します。roleを指定しない標準collectorは設定した\n# 全nodeで、roleを指定したcollectorはそのroleを持つnodeだけで動きます。\n# [[nodes]]\n# name = \"app1\"\n# host = \"10.0.0.1\"\n# roles = [\"app\", \"nginx\", \"db\"]\n\n# benchmarker自身が動くnodeを書く場合は`rule_side = true`を付けます。collectorもdisk検査も\n# そのnodeでは動かず、ベンチ側を計測しません。\n# [[nodes]]\n# name = \"bench\"\n# host = \"10.0.0.9\"\n# rule_side = true\n");
}

proof fn lists_hold_no_marks(units: Seq<Seq<char>>)
    requires
        forall|i: int| 0 <= i < units.len() ==> no_marks(#[trigger] units[i]),
    ensures
        no_marks(join(units, ", "@)),
    decreases units.len(),
{
    reveal_strlit(", ");
    if units.len() > 1 {
        let head = units.drop_last();
        assert forall|i: int| 0 <= i < head.len() implies no_marks(#[trigger] head[i]) by {
            assert(head[i] == units[i]);
        }
        lists_hold_no_marks(head);
        parted_texts_hold_no_marks(join(head, ", "@), ", "@, units.last());
    }
}

proof fn parted_texts_hold_no_marks(a: Seq<char>, between: Seq<char>, b: Seq<char>)
    requires
        no_marks(a),
        no_marks(b),
        between.len() > 0,
        !between.contains('@'),
    ensures
        no_marks(a + between + b),
{
    let text = a + between + b;
    assert forall|i: int| #![trigger text[i]] 0 <= i && i + 1 < text.len() implies !(text[i] == '@'
        && text[i + 1] == '@') by {
        let n = i - a.len();
        let m = n - between.len();
        if n + 1 < 0 {
            assert(text[i] == a[i] && text[i + 1] == a[i + 1]);
        } else if n + 1 < between.len() {
            assert(text[i + 1] == between[n + 1]);
        } else if n < between.len() {
            assert(text[i] == between[n]);
        } else {
            assert(text[i] == b[m] && text[i + 1] == b[m + 1]);
        }
    }
}

/// The values of a configuration, as they are written, hold no two marks in a row.
pub open spec fn unmarked(options: ConfigOptions) -> bool {
    &&& no_marks(options.data_dir@)
    &&& no_marks(options.nginx_access_log@)
    &&& no_marks(options.mysql_slow_log@)
    &&& forall|i: int|
        0 <= i < options.service_units@.len() ==> no_marks(
            debug_text((#[trigger] options.service_units@[i])@),
        )
    &&& options.sample_output matches Some(path) ==> no_marks(debug_text(path@))
}

/// What is written in each place for the options.
pub open spec fn option_values(options: ConfigOptions) -> spec_fn(int) -> Seq<char> {
    |place: int|
        place_value(
            options,
            quoted_all(texts(options.service_units@)),
            quoted_option(crate::report::text_option(options.sample_output)),
            place,
        )
}

/// A configuration is its template with each place filled by its value and the text as it stands,
/// and then the examples where they are asked for. Where the values hold no two marks in a row no
/// place is left: two marks in a row stand nowhere.
pub proof fn every_place_is_filled(parts: Seq<Part>, options: ConfigOptions)
    requires
        well_parted(parts),
        unmarked(options),
    ensures
        ({
            let values = option_values(options);
            let text = rendered(options, written_parts(parts, values, 0));
            &&& text == written_parts(parts, values, 5) + (if options.scaffold {
                SCAFFOLD@
            } else {
                Seq::<char>::empty()
            })
            &&& no_marks(text)
        }),
{
    let units = quoted_all(texts(options.service_units@));
    let sample_output = quoted_option(crate::report::text_option(options.sample_output));
    assert forall|i: int| 0 <= i < units.len() implies no_marks(#[trigger] units[i]) by {
        assert(units[i] == debug_text(options.service_units@[i]@));
    }
    lists_hold_no_marks(units);
    reveal_strlit("sample_output = ");
    reveal_strlit("# sample_output = \"config/benchmark-sample.log\"");
    let empty = Seq::<char>::empty();
    if options.sample_output is Some {
        let path = debug_text(options.sample_output->Some_0@);
        parted_texts_hold_no_marks(empty, "sample_output = "@, path);
        assert(empty + "sample_output = "@ + path == sample_line(sample_output));
    }
    let values = option_values(options);
    assert forall|i: int| 0 <= i < 5 implies no_marks(#[trigger] values(i)) by {
        assert(values(i) == place_value(options, units, sample_output, i));
    }
    one_kind_is_filled(parts, values, 0);
    one_kind_is_filled(parts, values, 1);
    one_kind_is_filled(parts, values, 2);
    one_kind_is_filled(parts, values, 3);
    one_kind_is_filled(parts, values, 4);
    no_marks_are_left(parts, values);
    let written = written_parts(parts, values, 5);
    if options.scaffold {
        examples_hold_no_marks();
        parted_texts_hold_no_marks(written, SCAFFOLD@, empty);
        assert(written + SCAFFOLD@ + empty == written + SCAFFOLD@);
    } else {
        assert(written + Seq::<char>::empty() == written);
    }
}

/// A file of a new project.
#[derive(Clone, Copy, Debug, PartialEq, Eq, Structural)]
pub enum ScaffoldFile {
    Config,
    Routes,
    Setup,
    Fingerprint,
    Benchmark,
    BenchmarkParser,
    SetupDoc,
}

impl ScaffoldFile {
    pub open spec fn name(self) -> Seq<char> {
        match self {
            ScaffoldFile::Config => "config.toml"@,
            ScaffoldFile::Routes => "routes.toml"@,
            ScaffoldFile::Setup => "setup.sh"@,
            ScaffoldFile::Fingerprint => "fingerprint.sh"@,
            ScaffoldFile::Benchmark => "benchmark.sh"@,
            ScaffoldFile::BenchmarkParser => "parse-benchmark.sh"@,
            ScaffoldFile::SetupDoc => "SETUP.md"@,
        }
    }

    /// The scripts can be run.
    pub open spec fn is_script(self) -> bool {
        match self {
            ScaffoldFile::Config | ScaffoldFile::Routes | ScaffoldFile::SetupDoc => false,
            _ => true,
        }
    }

    /// The name of the file, and of its template.
    pub fn file_name(self) -> (r: &'static str)
        ensures
            r@ == self.name(),
    {
        match self {
            ScaffoldFile::Config => "config.toml",
            ScaffoldFile::Routes => "routes.toml",
            ScaffoldFile::Setup => "setup.sh",
            ScaffoldFile::Fingerprint => "fingerprint.sh",
            ScaffoldFile::Benchmark => "benchmark.sh",
            ScaffoldFile::BenchmarkParser => "parse-benchmark.sh",
            ScaffoldFile::SetupDoc => "SETUP.md",
        }
    }

    fn script(self) -> (r: bool)
        ensures
            r == self.is_script(),
    {
        match self {
            ScaffoldFile::Config | ScaffoldFile::Routes | ScaffoldFile::SetupDoc => false,
            _ => true,
        }
    }
}

/// The files of a new project, in the order in which they are made.
pub open spec fn scaffold_files() -> Seq<ScaffoldFile> {
    seq![
        ScaffoldFile::Config,
        ScaffoldFile::Routes,
        ScaffoldFile::Setup,
        ScaffoldFile::Fingerprint,
        ScaffoldFile::Benchmark,
        ScaffoldFile::BenchmarkParser,
        ScaffoldFile::SetupDoc,
    ]
}

pub fn list_files() -> (r: Vec<ScaffoldFile>)
    ensures
        r@ == scaffold_files(),
{
    vec![
        ScaffoldFile::Config,
        ScaffoldFile::Routes,
        ScaffoldFile::Setup,
        ScaffoldFile::Fingerprint,
        ScaffoldFile::Benchmark,
        ScaffoldFile::BenchmarkParser,
        ScaffoldFile::SetupDoc,
    ]
}

/// The texts of the files of a new project. The places in that of the configuration are filled.
#[derive(Clone, Debug)]
pub struct Templates {
    pub config: String,
    pub routes: String,
    pub setup: String,
    pub fingerprint: String,
    pub benchmark: String,
    pub benchmark_parser: String,
    pub setup_doc: String,
}

/// What is written into a file of a new project.
pub open spec fn content_of(file: ScaffoldFile, options: ConfigOptions, t: Templates) -> Seq<char> {
    match file {
        ScaffoldFile::Config => rendered(options, t.config@),
        ScaffoldFile::Routes => t.routes@,
        ScaffoldFile::Setup => t.setup@,
        ScaffoldFile::Fingerprint => t.fingerprint@,
        ScaffoldFile::Benchmark => t.benchmark@,
        ScaffoldFile::BenchmarkParser => t.benchmark_parser@,
        ScaffoldFile::SetupDoc => t.setup_doc@,
    }
}

fn content(file: ScaffoldFile, options: &ConfigOptions, t: &Templates) -> (r: String)
    ensures
        r@ == content_of(file, *options, *t),
{
    match file {
        ScaffoldFile::Config => render_config(options, t.config.as_str()),
        ScaffoldFile::Routes => t.routes.clone(),
        ScaffoldFile::Setup => t.setup.clone(),
        ScaffoldFile::Fingerprint => t.fingerprint.clone(),
        ScaffoldFile::Benchmark => t.benchmark.clone(),
        ScaffoldFile::BenchmarkParser => t.benchmark_parser.clone(),
        ScaffoldFile::SetupDoc => t.setup_doc.clone(),
    }
}

/// The permissions of a script: all may read and run it, and its owner write it.
pub const SCRIPT_MODE: u32 = 0o755;

/// What is done about one file.
#[derive(Debug)]
pub struct ScaffoldStep {
    pub file: ScaffoldFile,
    pub path: String,
    /// What the file is made with; one that is there is kept as it is.
    pub content: Option<String>,
    /// The permissions that the file is given, where it is made to be run.
    pub mode: Option<u32>,
    /// The line that is shown of the file.
    pub line: String,
}

#[verifier::ext_equal]
pub struct StepView {
    pub file: ScaffoldFile,
    pub path: Seq<char>,
    pub content: Option<Seq<char>>,
    pub mode: Option<u32>,
    pub line: Seq<char>,
}

impl View for ScaffoldStep {
    type V = StepView;

    open spec fn view(&self) -> StepView {
        StepView {
            file: self.file,
            path: self.path@,
            content: crate::report::text_option(self.content),
            mode: self.mode,
            line: self.line@,
        }
    }
}

/// The directory of a project's settings.
pub open spec fn scaffold_dir(project_root: Seq<char>) -> Seq<char> {
    join_path(project_root, ".isuscope"@)
}

/// Where a file of a project lies.
pub open spec fn path_of(project_root: Seq<char>, file: ScaffoldFile) -> Seq<char> {
    join_path(scaffold_dir(project_root), file.name())
}

pub open spec fn step_of(
    project_root: Seq<char>,
    file: ScaffoldFile,
    content: Seq<char>,
    exists_already: bool,
) -> StepView {
    let path = path_of(project_root, file);
    StepView {
        file,
        path,
        content: if exists_already {
            None
        } else {
            Some(content)
        },
        mode: if !exists_already && file.is_script() {
            Some(SCRIPT_MODE)
        } else {
            None
        },
        line: (if exists_already {
            "keep   "@
        } else {
            "create "@
        }) + path,
    }
}

/// What is done about one file of a new project: it is made, unless it is there.
pub fn create_if_missing(
    project_root: &str,
    file: ScaffoldFile,
    content: String,
    exists_already: bool,
) -> (r: ScaffoldStep)
    ensures
        r@ == step_of(project_root@, file, content@, exists_already),
{
    let directory = joined_path(project_root, ".isuscope");
    let path = joined_path(directory.as_str(), file.file_name());
    let line = if exists_already {
        glue2("keep   ", path.as_str())
    } else {
        glue2("create ", path.as_str())
    };
    let mode: Option<u32> = if !exists_already && file.script() {
        Some(SCRIPT_MODE)
    } else {
        None
    };
    ScaffoldStep {
        file,
        path,
        content: if exists_already {
            None
        } else {
            Some(content)
        },
        mode,
        line,
    }
}

/// What is done about the files of a new project, of which `found` says whether they are there.
pub open spec fn steps_of(
    project_root: Seq<char>,
    options: ConfigOptions,
    templates: Templates,
    found: Seq<bool>,
) -> Seq<StepView> {
    Seq::new(
        scaffold_files().len(),
        |i: int|
            step_of(
                project_root,
                scaffold_files()[i],
                content_of(scaffold_files()[i], options, templates),
                found[i],
            ),
    )
}

/// Makes the files of a new project with the values of its configuration. The list says which of
/// them are there, in their order.
pub fn scaffold_with(
    project_root: &str,
    options: &ConfigOptions,
    templates: &Templates,
    found: &Vec<bool>,
) -> (r: Vec<ScaffoldStep>)
    requires
        found@.len() == scaffold_files().len(),
    ensures
        value_views(r@) == steps_of(project_root@, *options, *templates, found@),
{
    let ghost all = steps_of(project_root@, *options, *templates, found@);
    let files = list_files();
    let mut out: Vec<ScaffoldStep> = Vec::new();
    let mut i: usize = 0;
    assert(value_views(out@) == all.take(0));
    while i < files.len()
        invariant
            i <= files@.len(),
            files@ == scaffold_files(),
            found@.len() == files@.len(),
            all == steps_of(project_root@, *options, *templates, found@),
            value_views(out@) == all.take(i as int),
        decreases files.len() - i,
    {
        let text = content(files[i], options, templates);
        let step = create_if_missing(project_root, files[i], text, found[i]);
        let ghost was = out@;
        let ghost added = step@;
        out.push(step);
        assert(value_views(out@) == value_views(was).push(added));
        assert(all[i as int] == added);
        assert(all.take(i + 1) == all.take(i as int).push(all[i as int]));
        i += 1;
    }
    assert(all.take(i as int) == all);
    out
}

/// Makes the files of a new project with the usual values.
pub fn scaffold(project_root: &str, templates: &Templates, found: &Vec<bool>) -> (r: Vec<
    ScaffoldStep,
>)
    requires
        found@.len() == scaffold_files().len(),
    ensures
        exists|options: ConfigOptions| #[trigger]
            usual(options) && value_views(r@) == steps_of(
                project_root@,
                options,
                *templates,
                found@,
            ),
{
    let options = ConfigOptions::default();
    scaffold_with(project_root, &options, templates, found)
}

/// A file on a disk: what it holds, and the permissions that it was given, if any.
pub struct Saved {
    pub content: Seq<char>,
    pub mode: Option<u32>,
}

/// The files of a disk by their paths.
pub type Disk = Map<Seq<char>, Saved>;

/// The disk after some steps: each file that is made is written, and given its permissions.
pub open spec fn after_steps(disk: Disk, steps: Seq<StepView>) -> Disk
    decreases steps.len(),
{
    if steps.len() == 0 {
        disk
    } else {
        let before = after_steps(disk, steps.drop_last());
        let step = steps.last();
        match step.content {
            Some(content) => before.insert(step.path, Saved { content, mode: step.mode }),
            None => before,
        }
    }
}

/// Which of the files of a project are on a disk.
pub open spec fn found_on(disk: Disk, project_root: Seq<char>) -> Seq<bool> {
    scaffold_files().map_values(|file: ScaffoldFile| disk.dom().contains(path_of(project_root, file)))
}

proof fn names_differ(i: int, j: int)
    requires
        0 <= i < j < scaffold_files().len(),
    ensures
        scaffold_files()[i].name() != scaffold_files()[j].name(),
        scaffold_files()[i].name().len() > 0,
        scaffold_files()[i].name()[0] != '/',
        scaffold_files()[j].name().len() > 0,
        scaffold_files()[j].name()[0] != '/',
{
    reveal_strlit("config.toml");
    reveal_strlit("routes.toml");
    reveal_strlit("setup.sh");
    reveal_strlit("fingerprint.sh");
    reveal_strlit("benchmark.sh");
    reveal_strlit("parse-benchmark.sh");
    reveal_strlit("SETUP.md");
    assert("config.toml"@[0] == 'c' && "routes.toml"@[0] == 'r' && "setup.sh"@[0] == 's');
    assert("fingerprint.sh"@[0] == 'f' && "benchmark.sh"@[0] == 'b');
    assert("parse-benchmark.sh"@[0] == 'p' && "SETUP.md"@[0] == 'S');
}

proof fn paths_differ(project_root: Seq<char>, i: int, j: int)
    requires
        0 <= i < j < scaffold_files().len(),
    ensures
        path_of(project_root, scaffold_files()[i]) != path_of(project_root, scaffold_files()[j]),
{
    let a = scaffold_files()[i].name();
    let b = scaffold_files()[j].name();
    names_differ(i, j);
    let dir = scaffold_dir(project_root);
    let front = if dir.len() == 0 {
        Seq::<char>::empty()
    } else if dir.last() == '/' {
        dir
    } else {
        dir.push('/')
    };
    assert(join_path(dir, a) == front + a);
    assert(join_path(dir, b) == front + b);
    if front + a == front + b {
        assert((front + a).skip(front.len() as int) == a);
        assert((front + b).skip(front.len() as int) == b);
    }
}

/// Steps about different files: those that are made hold what they are made with, and nothing else
/// changes.
proof fn steps_hold(disk: Disk, steps: Seq<StepView>)
    requires
        forall|i: int, j: int|
            0 <= i < j < steps.len() ==> (#[trigger] steps[i]).path != (#[trigger] steps[j]).path,
    ensures
        forall|i: int|
            0 <= i < steps.len() ==> ((#[trigger] steps[i]).content matches Some(content)
                ==> after_steps(disk, steps).dom().contains(steps[i].path) && after_steps(
                disk,
                steps,
            )[steps[i].path] == (Saved { content, mode: steps[i].mode })),
        forall|p: Seq<char>|
            (forall|i: int|
                0 <= i < steps.len() && (#[trigger] steps[i]).content is Some ==> steps[i].path
                    != p) ==> (#[trigger] after_steps(disk, steps).dom().contains(p)
                == disk.dom().contains(p)) && after_steps(disk, steps)[p] == disk[p],
    decreases steps.len(),
{
    if steps.len() > 0 {
        let head = steps.drop_last();
        assert forall|i: int, j: int| 0 <= i < j < head.len() implies (#[trigger] head[i]).path != (
        #[trigger] head[j]).path by {
            assert(steps[i].path != steps[j].path);
        }
        steps_hold(disk, head);
        let before = after_steps(disk, head);
        let after = after_steps(disk, steps);
        let last = steps.last();
        assert forall|i: int| 0 <= i < steps.len() implies ((#[trigger] steps[i]).content matches
            Some(content) ==> after.dom().contains(steps[i].path) && after[steps[i].path] == (
        Saved { content, mode: steps[i].mode })) by {
            if i < head.len() {
                assert(head[i] == steps[i]);
                assert(steps[i].path != steps[steps.len() - 1].path);
            }
        }
        assert forall|p: Seq<char>|
            (forall|i: int|
                0 <= i < steps.len() && (#[trigger] steps[i]).content is Some ==> steps[i].path
                    != p) implies (#[trigger] after.dom().contains(p) == disk.dom().contains(p))
            && after[p] == disk[p] by {
            assert forall|i: int| 0 <= i < head.len() && (
            #[trigger] head[i]).content is Some implies head[i].path != p by {
                assert(steps[i] == head[i]);
            }
            assert(before.dom().contains(p) == disk.dom().contains(p));
            assert(steps[steps.len() - 1] == last);
        }
    }
}

/// Making a project: afterwards all its files are there. Those that were there hold what they held,
/// with the permissions that they had; the others hold what they are made with, and the scripts can
/// be run. No other file changes, and a second time nothing does.
pub proof fn projects_are_made_once(
    project_root: Seq<char>,
    options: ConfigOptions,
    templates: Templates,
    disk: Disk,
)
    ensures
        ({
            let files = scaffold_files();
            let after = after_steps(
                disk,
                steps_of(project_root, options, templates, found_on(disk, project_root)),
            );
            &&& forall|i: int|
                0 <= i < files.len() ==> after.dom().contains(
                    path_of(project_root, #[trigger] files[i]),
                )
            &&& forall|i: int|
                0 <= i < files.len() && !disk.dom().contains(
                    path_of(project_root, #[trigger] files[i]),
                ) ==> after[path_of(project_root, files[i])] == (Saved {
                    content: content_of(files[i], options, templates),
                    mode: if files[i].is_script() {
                        Some(SCRIPT_MODE)
                    } else {
                        None
                    },
                })
            &&& forall|p: Seq<char>|
                #![trigger after[p]]
                disk.dom().contains(p) ==> after.dom().contains(p) && after[p] == disk[p]
            &&& forall|p: Seq<char>|
                #![trigger after.dom().contains(p)]
                after.dom().contains(p) ==> disk.dom().contains(p) || exists|i: int|
                    0 <= i < files.len() && path_of(project_root, #[trigger] files[i]) == p
            &&& after_steps(
                after,
                steps_of(project_root, options, templates, found_on(after, project_root)),
            ) == after
        }),
{
    let files = scaffold_files();
    let found = found_on(disk, project_root);
    let steps = steps_of(project_root, options, templates, found);
    let after = after_steps(disk, steps);
    assert forall|i: int, j: int| 0 <= i < j < steps.len() implies (#[trigger] steps[i]).path != (
    #[trigger] steps[j]).path by {
        paths_differ(project_root, i, j);
    }
    steps_hold(disk, steps);
    assert forall|p: Seq<char>| #![trigger after[p]] disk.dom().contains(p) implies
        after.dom().contains(p) && after[p] == disk[p] by {
        assert forall|i: int| 0 <= i < steps.len() && (
        #[trigger] steps[i]).content is Some implies steps[i].path != p by {
            assert(found[i] == disk.dom().contains(path_of(project_root, files[i])));
        }
        assert(after.dom().contains(p) == disk.dom().contains(p));
    }
    assert forall|i: int| 0 <= i < files.len() implies after.dom().contains(
        path_of(project_root, #[trigger] files[i]),
    ) by {
        assert(steps[i].path == path_of(project_root, files[i]));
        assert(found[i] == disk.dom().contains(path_of(project_root, files[i])));
        if found[i] {
            let held = after[path_of(project_root, files[i])];
        }
    }
    assert forall|i: int|
        0 <= i < files.len() && !disk.dom().contains(
            path_of(project_root, #[trigger] files[i]),
        ) implies after[path_of(project_root, files[i])] == (Saved {
        content: content_of(files[i], options, templates),
        mode: if files[i].is_script() {
            Some(SCRIPT_MODE)
        } else {
            None
        },
    }) by {
        assert(steps[i].path == path_of(project_root, files[i]));
        assert(found[i] == disk.dom().contains(path_of(project_root, files[i])));
    }
    assert forall|p: Seq<char>|
        #![trigger after.dom().contains(p)]
        after.dom().contains(p) implies disk.dom().contains(p) || exists|i: int|
        0 <= i < files.len() && path_of(project_root, #[trigger] files[i]) == p by {
        if !(exists|i: int|
            0 <= i < files.len() && path_of(project_root, #[trigger] files[i]) == p) {
            assert forall|i: int| 0 <= i < steps.len() && (
            #[trigger] steps[i]).content is Some implies steps[i].path != p by {
                assert(path_of(project_root, files[i]) != p);
            }
        }
    }
    let again = steps_of(project_root, options, templates, found_on(after, project_root));
    assert forall|i: int| 0 <= i < again.len() implies (#[trigger] again[i]).content is None by {
        assert(found_on(after, project_root)[i] == after.dom().contains(
            path_of(project_root, files[i]),
        ));
    }
    nothing_is_made(after, again);
}

proof fn nothing_is_made(disk: Disk, steps: Seq<StepView>)
    requires
        forall|i: int| 0 <= i < steps.len() ==> (#[trigger] steps[i]).content is None,
    ensures
        after_steps(disk, steps) == disk,
    decreases steps.len(),
{
    if steps.len() > 0 {
        let head = steps.drop_last();
        assert forall|i: int| 0 <= i < head.len() implies (#[trigger] head[i]).content is None by {
            assert(head[i] == steps[i]);
        }
        nothing_is_made(disk, head);
        assert(steps[steps.len() - 1].content is None);
    }
}

/// What is shown when all is done.
pub fn scaffold_notes(project_root: &str) -> (r: Vec<String>)
    ensures
        texts(r@) == seq![
            "isuscope scaffold: "@ + scaffold_dir(project_root@),
            "next: inspect .isuscope/SETUP.md; do not run setup.sh until its checklist is complete"@,
        ],
{
    let directory = joined_path(project_root, ".isuscope");
    let first = glue2("isuscope scaffold: ", directory.as_str());
    let mut out: Vec<String> = Vec::new();
    assert(texts(out@) == Seq::<Seq<char>>::empty());
    push_text(&mut out, first.as_str());
    push_text(
        &mut out,
        "next: inspect .isuscope/SETUP.md; do not run setup.sh until its checklist is complete",
    );
    assert(texts(out@) == seq![
        first@,
        "next: inspect .isuscope/SETUP.md; do not run setup.sh until its checklist is complete"@,
    ]);
    out
}

} // verus!
