//! JSON data binding: a JSON document bound into chart series and metric
//! cards. An object binds each number to a chart point (label = key) and
//! each string to a metric card; an array binds `{label|name, value|amount}`
//! entries to chart points. Numbers are kept as the text serde_json prints
//! for them.

use crate::data_binding::{
    csv_result, data_format, extension, format_of, lemma_format_case_insensitive, opt_chart_view, parse_csv, string_views,
    CsvChart, CsvChartView, DataFormat,
};
use crate::strutil::all_ascii;
use crate::http::text_eq;
use crate::router::{MetricCardSpec, MetricView};
use crate::strutil::{push_str, to_uppercase, uppercase};
use vstd::prelude::*;

verus! {

#[verifier::external_type_specification]
#[verifier::external_body]
pub struct ExJsonValue(serde_json::Value);

#[verifier::external_type_specification]
#[verifier::external_body]
#[verifier::reject_recursive_types(K)]
#[verifier::reject_recursive_types(V)]
pub struct ExJsonMap<K, V>(serde_json::Map<K, V>);

/// A JSON value as the binding reads it: a scalar, or `Compound` for a
/// nested array or object.
pub enum JsonScalar {
    Null,
    Bool(bool),
    Number(String),
    Text(String),
    Compound,
}

/// The content of a `JsonScalar`.
pub enum ScalarView {
    Null,
    Bool(bool),
    Number(Seq<char>),
    Text(Seq<char>),
    Compound,
}

impl View for JsonScalar {
    type V = ScalarView;

    open spec fn view(&self) -> ScalarView {
        match self {
            JsonScalar::Null => ScalarView::Null,
            JsonScalar::Bool(b) => ScalarView::Bool(*b),
            JsonScalar::Number(t) => ScalarView::Number(t@),
            JsonScalar::Text(t) => ScalarView::Text(t@),
            JsonScalar::Compound => ScalarView::Compound,
        }
    }
}

/// The fields of a JSON object, in the order the parser's map yields them.
pub type JsonFields = Vec<(String, JsonScalar)>;

/// The content of the fields of an object.
pub open spec fn fields_view(fs: Seq<(String, JsonScalar)>) -> Seq<(Seq<char>, ScalarView)> {
    fs.map_values(|f: (String, JsonScalar)| (f.0@, f.1@))
}

/// A JSON document as the binding reads it: an object's fields, an array's
/// items (the fields of each object item; `None` for any other item), or
/// `Other` for a top-level scalar.
pub enum JsonDoc {
    Object(JsonFields),
    Array(Vec<Option<JsonFields>>),
    Other,
}

/// The content of a `JsonDoc`.
pub enum DocView {
    Object(Seq<(Seq<char>, ScalarView)>),
    Array(Seq<Option<Seq<(Seq<char>, ScalarView)>>>),
    Other,
}

/// The content of an optional object item.
pub open spec fn item_view(o: Option<JsonFields>) -> Option<Seq<(Seq<char>, ScalarView)>> {
    match o {
        Some(fs) => Some(fields_view(fs@)),
        None => None,
    }
}

impl View for JsonDoc {
    type V = DocView;

    open spec fn view(&self) -> DocView {
        match self {
            JsonDoc::Object(fs) => DocView::Object(fields_view(fs@)),
            JsonDoc::Array(items) => DocView::Array(items@.map_values(|o: Option<JsonFields>| item_view(o))),
            JsonDoc::Other => DocView::Other,
        }
    }
}

/// What serde_json's `from_str::<Value>` reads from `content`, as the binding
/// sees it, or the text of its parse error.
pub uninterp spec fn json_read(content: Seq<char>) -> Result<DocView, Seq<char>>;

/// One serde_json value as a scalar (no contract: the value is opaque).
#[verifier::external_body]
fn scalar_of(v: &serde_json::Value) -> JsonScalar {
    match v {
        serde_json::Value::Null => JsonScalar::Null,
        serde_json::Value::Bool(b) => JsonScalar::Bool(*b),
        serde_json::Value::Number(n) => JsonScalar::Number(n.to_string()),
        serde_json::Value::String(s) => JsonScalar::Text(s.clone()),
        _ => JsonScalar::Compound,
    }
}

/// The fields of a serde_json object, in its map's order (no contract).
#[verifier::external_body]
fn fields_of(m: &serde_json::Map<String, serde_json::Value>) -> JsonFields {
    let mut out = Vec::new();
    for (k, v) in m {
        out.push((k.clone(), scalar_of(v)));
    }
    out
}

/// An array item: its fields when it is an object (no contract).
#[verifier::external_body]
fn item_of(v: &serde_json::Value) -> Option<JsonFields> {
    match v {
        serde_json::Value::Object(m) => Some(fields_of(m)),
        _ => None,
    }
}

/// Parses `content` with serde_json's `from_str::<Value>` and converts the
/// value for the binding: an object's fields (numbers as serde_json prints
/// them), an array's items, or `Other`; the error's text when parsing
/// fails. The result is named `json_read` of the content.
#[verifier::external_body]
fn json_document(content: &str) -> (r: Result<JsonDoc, String>)
    ensures
        match r {
            Ok(d) => json_read(content@) == Ok::<DocView, Seq<char>>(d@),
            Err(e) => json_read(content@) == Err::<DocView, Seq<char>>(e@),
        },
{
    match serde_json::from_str::<serde_json::Value>(content) {
        Err(e) => Err(e.to_string()),
        Ok(serde_json::Value::Object(m)) => Ok(JsonDoc::Object(fields_of(&m))),
        Ok(serde_json::Value::Array(items)) => {
            let mut out = Vec::new();
            for v in &items {
                out.push(item_of(v));
            }
            Ok(JsonDoc::Array(out))
        },
        Ok(_) => Ok(JsonDoc::Other),
    }
}

/// A chart bound from JSON: labels and the number texts of their values.
pub struct JsonChart {
    pub labels: Vec<String>,
    pub values: Vec<String>,
}

/// What a JSON document binds: metric cards and, from two points on, a chart.
pub struct JsonBinding {
    pub metrics: Vec<MetricCardSpec>,
    pub chart: Option<JsonChart>,
}

/// The content of a binding: metric cards and the chart's (labels, values).
pub struct BindingView {
    pub metrics: Seq<MetricView>,
    pub chart: Option<(Seq<Seq<char>>, Seq<Seq<char>>)>,
}

impl View for JsonBinding {
    type V = BindingView;

    open spec fn view(&self) -> BindingView {
        BindingView {
            metrics: self.metrics@.map_values(|m: MetricCardSpec| m@),
            chart: match self.chart {
                Some(c) => Some((string_views(c.labels@), string_views(c.values@))),
                None => None,
            },
        }
    }
}

/// The chart points of an object: its number fields, in order.
pub open spec fn object_points(fs: Seq<(Seq<char>, ScalarView)>) -> Seq<(Seq<char>, Seq<char>)>
    decreases fs.len(),
{
    if fs.len() == 0 {
        seq![]
    } else {
        object_points(fs.drop_last()) + match fs.last().1 {
            ScalarView::Number(t) => seq![(fs.last().0, t)],
            _ => seq![],
        }
    }
}

/// The metric cards of an object: its string fields, label upper-cased.
pub open spec fn object_cards(fs: Seq<(Seq<char>, ScalarView)>) -> Seq<MetricView>
    decreases fs.len(),
{
    if fs.len() == 0 {
        seq![]
    } else {
        object_cards(fs.drop_last()) + match fs.last().1 {
            ScalarView::Text(t) => seq![MetricView { label: uppercase(fs.last().0), value: t, icon: "chart"@ }],
            _ => seq![],
        }
    }
}

/// The value of the last field named `key`.
pub open spec fn field(fs: Seq<(Seq<char>, ScalarView)>, key: Seq<char>) -> Option<ScalarView>
    decreases fs.len(),
{
    if fs.len() == 0 {
        None
    } else if fs.last().0 == key {
        Some(fs.last().1)
    } else {
        field(fs.drop_last(), key)
    }
}

/// Whether a number text is zero: every digit before its exponent is `0`.
pub open spec fn zero_number(t: Seq<char>) -> bool {
    forall|i: int| 0 <= i < t.len() && (forall|j: int| 0 <= j <= i ==> t[j] != 'e' && t[j] != 'E')
        && '0' <= #[trigger] t[i] && t[i] <= '9' ==> t[i] == '0'
}

/// The point of an array entry: its label (`label`, else `name`, else
/// empty) and value text (`value` unless zero, else `amount`, else `0`);
/// `None` when a field has the wrong type (`label`/`name` not a string,
/// `value`/`amount` not a number, `name`/`amount` may be null).
pub open spec fn entry_point(fs: Seq<(Seq<char>, ScalarView)>) -> Option<(Seq<char>, Seq<char>)> {
    let label = match field(fs, "label"@) {
        None => Some(seq![]),
        Some(ScalarView::Text(s)) => Some(s),
        _ => None,
    };
    let value = match field(fs, "value"@) {
        None => Some("0"@),
        Some(ScalarView::Number(t)) => Some(t),
        _ => None,
    };
    let name = match field(fs, "name"@) {
        None => Some(None),
        Some(ScalarView::Null) => Some(None),
        Some(ScalarView::Text(s)) => Some(Some(s)),
        _ => None,
    };
    let amount = match field(fs, "amount"@) {
        None => Some(None),
        Some(ScalarView::Null) => Some(None),
        Some(ScalarView::Number(t)) => Some(Some(t)),
        _ => None,
    };
    match (label, value, name, amount) {
        (Some(l), Some(v), Some(n), Some(a)) => Some((
            if l.len() > 0 { l } else { match n { Some(s) => s, None => seq![] } },
            if !zero_number(v) { v } else { match a { Some(t) => t, None => "0"@ } },
        )),
        _ => None,
    }
}

/// The points of an array's items, the unlabeled ones dropped; `None` when
/// an item is not an object or has a field of the wrong type.
pub open spec fn array_points(items: Seq<Option<Seq<(Seq<char>, ScalarView)>>>) -> Option<Seq<(Seq<char>, Seq<char>)>>
    decreases items.len(),
{
    if items.len() == 0 {
        Some(seq![])
    } else {
        match (array_points(items.drop_last()), items.last()) {
            (Some(ps), Some(fs)) => match entry_point(fs) {
                Some(p) => Some(if p.0.len() > 0 { ps.push(p) } else { ps }),
                None => None,
            },
            _ => None,
        }
    }
}

/// The chart of a list of points: from two points on.
pub open spec fn chart_of(ps: Seq<(Seq<char>, Seq<char>)>) -> Option<(Seq<Seq<char>>, Seq<Seq<char>>)> {
    if ps.len() >= 2 {
        Some((ps.map_values(|p: (Seq<char>, Seq<char>)| p.0), ps.map_values(|p: (Seq<char>, Seq<char>)| p.1)))
    } else {
        None
    }
}

/// What a JSON document binds, or the error message.
pub open spec fn json_binding(d: DocView) -> Result<BindingView, Seq<char>> {
    match d {
        DocView::Object(fs) => Ok(BindingView { metrics: object_cards(fs), chart: chart_of(object_points(fs)) }),
        DocView::Array(items) => match array_points(items) {
            Some(ps) => Ok(BindingView { metrics: seq![], chart: chart_of(ps) }),
            None => Err("bad array item"@),
        },
        DocView::Other => Err("JSON must be an object or array"@),
    }
}

/// What the JSON text `content` binds, or the error message.
pub open spec fn json_result(content: Seq<char>) -> Result<BindingView, Seq<char>> {
    match json_read(content) {
        Ok(d) => json_binding(d),
        Err(e) => Err("invalid JSON: "@ + e),
    }
}

/// The value of the last field named `key`.
fn find_field<'a>(fs: &'a JsonFields, key: &str) -> (r: Option<&'a JsonScalar>)
    ensures
        match r {
            Some(v) => field(fields_view(fs@), key@) == Some(v@),
            None => field(fields_view(fs@), key@) is None,
        },
{
    let ghost fv = fields_view(fs@);
    let mut found: Option<&JsonScalar> = None;
    let mut i: usize = 0;
    while i < fs.len()
        invariant
            i <= fs.len(),
            fv == fields_view(fs@),
            match found {
                Some(v) => field(fv.take(i as int), key@) == Some(v@),
                None => field(fv.take(i as int), key@) is None,
            },
        decreases fs.len() - i,
    {
        assert(fv.take(i + 1).drop_last() == fv.take(i as int));
        assert(fv.take(i + 1).last() == (fs@[i as int].0@, fs@[i as int].1@));
        if text_eq(fs[i].0.as_str(), key) {
            found = Some(&fs[i].1);
        }
        i = i + 1;
    }
    assert(fv.take(fs.len() as int) == fv);
    found
}

/// Whether a number text is zero (see `zero_number`).
fn is_zero_number(t: &str) -> (r: bool)
    ensures
        r == zero_number(t@),
{
    let cs = crate::strutil::str_chars(t);
    let mut i: usize = 0;
    while i < cs.len()
        invariant
            i <= cs.len(),
            cs@ == t@,
            forall|j: int| 0 <= j < i ==> cs@[j] != 'e' && cs@[j] != 'E',
            forall|j: int| 0 <= j < i && '0' <= cs@[j] && cs@[j] <= '9' ==> cs@[j] == '0',
        decreases cs.len() - i,
    {
        let c = cs[i];
        if c == 'e' || c == 'E' {
            assert forall|k: int| 0 <= k < t@.len() && (forall|j: int| 0 <= j <= k ==> t@[j] != 'e' && t@[j] != 'E')
                && '0' <= #[trigger] t@[k] && t@[k] <= '9' implies t@[k] == '0' by {
                if k >= i {
                    assert(t@[i as int] == c);
                }
            }
            return true;
        }
        if '1' <= c && c <= '9' {
            assert(!(forall|j: int| 0 <= j <= i ==> t@[j] != 'e' && t@[j] != 'E') || true);
            assert(t@[i as int] == c);
            return false;
        }
        i = i + 1;
    }
    true
}

/// The point of one array entry (see `entry_point`).
fn point_of(fs: &JsonFields) -> (r: Option<(String, String)>)
    ensures
        match r {
            Some(p) => entry_point(fields_view(fs@)) == Some((p.0@, p.1@)),
            None => entry_point(fields_view(fs@)) is None,
        },
{
    let label: String = match find_field(fs, "label") {
        None => String::new(),
        Some(JsonScalar::Text(s)) => s.clone(),
        Some(_) => return None,
    };
    let value: String = match find_field(fs, "value") {
        None => String::from_str("0"),
        Some(JsonScalar::Number(t)) => t.clone(),
        Some(_) => return None,
    };
    let name: Option<String> = match find_field(fs, "name") {
        None => None,
        Some(JsonScalar::Null) => None,
        Some(JsonScalar::Text(s)) => Some(s.clone()),
        Some(_) => return None,
    };
    let amount: Option<String> = match find_field(fs, "amount") {
        None => None,
        Some(JsonScalar::Null) => None,
        Some(JsonScalar::Number(t)) => Some(t.clone()),
        Some(_) => return None,
    };
    proof {
        reveal_strlit("");
    }
    let ghost fv = fields_view(fs@);
    assert(""@.len() == 0);
    proof {
        if label@.len() == 0 {
            assert(label@ =~= Seq::<char>::empty());
            assert(""@ =~= Seq::<char>::empty());
        }
    }
    let l = if !text_eq(label.as_str(), "") {
        label
    } else {
        match name {
            Some(s) => s,
            None => String::new(),
        }
    };
    let v = if !is_zero_number(value.as_str()) {
        value
    } else {
        match amount {
            Some(t) => t,
            None => String::from_str("0"),
        }
    };
    Some((l, v))
}

/// The chart of a list of points, from two points on.
fn chart_from(labels: Vec<String>, values: Vec<String>) -> (r: Option<JsonChart>)
    requires
        labels.len() == values.len(),
    ensures
        match r {
            Some(c) => labels.len() >= 2 && c.labels@ == labels@ && c.values@ == values@,
            None => labels.len() < 2,
        },
{
    if labels.len() >= 2 {
        Some(JsonChart { labels, values })
    } else {
        None
    }
}

/// An item that fails fails the whole array.
proof fn lemma_array_points_fail(items: Seq<Option<Seq<(Seq<char>, ScalarView)>>>, i: int)
    requires
        0 <= i <= items.len(),
        array_points(items.take(i)) is None,
    ensures
        array_points(items) is None,
    decreases items.len() - i,
{
    if i < items.len() {
        assert(items.take(i + 1).drop_last() == items.take(i));
        lemma_array_points_fail(items, i + 1);
    } else {
        assert(items.take(i) == items);
    }
}

/// The chart of points given as parallel label and value lists.
proof fn lemma_chart_of(ps: Seq<(Seq<char>, Seq<char>)>, labels: Seq<String>, values: Seq<String>)
    requires
        labels.len() == ps.len(),
        values.len() == ps.len(),
        forall|i: int| 0 <= i < ps.len() ==> labels[i]@ == ps[i].0 && values[i]@ == ps[i].1,
    ensures
        chart_of(ps) == (if ps.len() >= 2 { Some((string_views(labels), string_views(values))) } else { None::<(Seq<Seq<char>>, Seq<Seq<char>>)> }),
{
    assert(string_views(labels) =~= ps.map_values(|p: (Seq<char>, Seq<char>)| p.0));
    assert(string_views(values) =~= ps.map_values(|p: (Seq<char>, Seq<char>)| p.1));
}

/// Binds a JSON document: an object's number fields become chart points
/// (from two on) and its string fields metric cards; an array's labelled
/// entries become chart points (from two on); any other document, an array
/// item that is not an object, or an entry field of the wrong type is an
/// error.
pub fn bind_json(d: &JsonDoc) -> (r: Result<JsonBinding, String>)
    ensures
        match r {
            Ok(b) => json_binding(d@) == Ok::<BindingView, Seq<char>>(b@),
            Err(e) => json_binding(d@) == Err::<BindingView, Seq<char>>(e@),
        },
{
    match d {
        JsonDoc::Object(fs) => {
            let ghost fv = fields_view(fs@);
            let mut labels: Vec<String> = Vec::new();
            let mut values: Vec<String> = Vec::new();
            let mut metrics: Vec<MetricCardSpec> = Vec::new();
            let mut i: usize = 0;
            while i < fs.len()
                invariant
                    i <= fs.len(),
                    fv == fields_view(fs@),
                    labels.len() == values.len(),
                    labels.len() == object_points(fv.take(i as int)).len(),
                    forall|k: int| 0 <= k < labels.len() ==> labels@[k]@ == object_points(fv.take(i as int))[k].0
                        && values@[k]@ == object_points(fv.take(i as int))[k].1,
                    metrics@.map_values(|m: MetricCardSpec| m@) == object_cards(fv.take(i as int)),
                decreases fs.len() - i,
            {
                assert(fv.take(i + 1).drop_last() == fv.take(i as int));
                assert(fv.take(i + 1).last() == (fs@[i as int].0@, fs@[i as int].1@));
                let ghost m0 = metrics@.map_values(|m: MetricCardSpec| m@);
                match &fs[i].1 {
                    JsonScalar::Number(t) => {
                        labels.push(fs[i].0.clone());
                        values.push(t.clone());
                    },
                    JsonScalar::Text(t) => {
                        let card = MetricCardSpec {
                            label: to_uppercase(fs[i].0.as_str()),
                            value: t.clone(),
                            icon: String::from_str("chart"),
                        };
                        metrics.push(card);
                        assert(metrics@.map_values(|m: MetricCardSpec| m@) =~= m0.push(card@));
                    },
                    _ => {},
                }
                i = i + 1;
            }
            assert(fv.take(fs.len() as int) == fv);
            proof {
                lemma_chart_of(object_points(fv), labels@, values@);
            }
            let ghost cards = metrics@.map_values(|m: MetricCardSpec| m@);
            let chart = chart_from(labels, values);
            let b = JsonBinding { metrics, chart };
            assert(b@.metrics =~= cards);
            assert(d@ == DocView::Object(fv));
            Ok(b)
        },
        JsonDoc::Array(items) => {
            let ghost iv = items@.map_values(|o: Option<JsonFields>| item_view(o));
            assert(d@ == DocView::Array(iv)) by {
                if let DocView::Array(x) = d@ {
                    assert(x =~= iv);
                }
            }
            let mut labels: Vec<String> = Vec::new();
            let mut values: Vec<String> = Vec::new();
            let mut i: usize = 0;
            while i < items.len()
                invariant
                    i <= items.len(),
                    iv == items@.map_values(|o: Option<JsonFields>| item_view(o)),
                    d@ == DocView::Array(iv),
                    array_points(iv.take(i as int)) is Some,
                    labels.len() == values.len(),
                    labels.len() == array_points(iv.take(i as int)).unwrap().len(),
                    forall|k: int| 0 <= k < labels.len() ==> labels@[k]@ == array_points(iv.take(i as int)).unwrap()[k].0
                        && values@[k]@ == array_points(iv.take(i as int)).unwrap()[k].1,
                decreases items.len() - i,
            {
                assert(iv.take(i + 1).drop_last() == iv.take(i as int));
                assert(iv.take(i + 1).last() == item_view(items@[i as int]));
                match &items[i] {
                    None => {
                        proof {
                            assert(item_view(items@[i as int]) is None);
                            assert(array_points(iv.take(i + 1)) is None);
                            lemma_array_points_fail(iv, i + 1);
                        }
                        return Err(String::from_str("bad array item"));
                    },
                    Some(fs) => {
                        match point_of(fs) {
                            None => {
                                proof {
                                    assert(item_view(items@[i as int]) == Some(fields_view(fs@)));
                                    assert(array_points(iv.take(i + 1)) is None);
                                    lemma_array_points_fail(iv, i + 1);
                                }
                                return Err(String::from_str("bad array item"));
                            },
                            Some(p) => {
                                proof {
                                    reveal_strlit("");
                                    assert(item_view(items@[i as int]) == Some(fields_view(fs@)));
                                    if p.0@.len() == 0 {
                                        assert(p.0@ =~= Seq::<char>::empty());
                                        assert(""@ =~= Seq::<char>::empty());
                                    }
                                }
                                if !text_eq(p.0.as_str(), "") {
                                    labels.push(p.0);
                                    values.push(p.1);
                                }
                            },
                        }
                    },
                }
                i = i + 1;
            }
            assert(iv.take(items.len() as int) == iv);
            proof {
                lemma_chart_of(array_points(iv).unwrap(), labels@, values@);
            }
            let chart = chart_from(labels, values);
            let b = JsonBinding { metrics: Vec::new(), chart };
            assert(b@.metrics =~= Seq::<MetricView>::empty());
            Ok(b)
        },
        JsonDoc::Other => Err(String::from_str("JSON must be an object or array")),
    }
}

/// Parses and binds the JSON text `content` (see `bind_json`); a text that
/// does not parse is an error `invalid JSON: ` followed by the parser's
/// message.
pub fn parse_json(content: &str) -> (r: Result<JsonBinding, String>)
    ensures
        match r {
            Ok(b) => json_result(content@) == Ok::<BindingView, Seq<char>>(b@),
            Err(e) => json_result(content@) == Err::<BindingView, Seq<char>>(e@),
        },
{
    match json_document(content) {
        Ok(d) => bind_json(&d),
        Err(e) => {
            let mut m = String::from_str("invalid JSON: ");
            push_str(&mut m, e.as_str());
            Err(m)
        },
    }
}


/// What a data file binds: metric cards and an optional chart (labels, the
/// primary series and any further series, as number texts).
pub struct DataBinding {
    pub metrics: Vec<MetricCardSpec>,
    pub chart: Option<CsvChart>,
}

/// The content of a data binding.
pub struct DataView {
    pub metrics: Seq<MetricView>,
    pub chart: Option<CsvChartView>,
}

impl View for DataBinding {
    type V = DataView;

    open spec fn view(&self) -> DataView {
        DataView { metrics: self.metrics@.map_values(|m: MetricCardSpec| m@), chart: opt_chart_view(self.chart) }
    }
}

/// What the data file `content` at `path` binds: by the path's extension, a
/// CSV table's chart or a JSON document's cards and chart; the format's
/// error for any other extension, and the reader's error for bad content.
pub open spec fn data_result(content: Seq<char>, path: Seq<char>) -> Result<DataView, Seq<char>> {
    match format_of(path) {
        Err(m) => Err(m),
        Ok(DataFormat::Csv) => match csv_result(content) {
            Ok(c) => Ok(DataView { metrics: seq![], chart: c }),
            Err(e) => Err(e),
        },
        Ok(DataFormat::Json) => match json_result(content) {
            Ok(b) => Ok(DataView {
                metrics: b.metrics,
                chart: match b.chart {
                    Some(lv) => Some(CsvChartView { labels: lv.0, values: lv.1, series: seq![], series_names: seq![] }),
                    None => None,
                },
            }),
            Err(e) => Err(e),
        },
    }
}

/// Reads the data file `content` at `path` (see `data_result`).
pub fn bind_data(content: &str, path_or_ext: &str) -> (r: Result<DataBinding, String>)
    ensures
        match r {
            Ok(b) => data_result(content@, path_or_ext@) == Ok::<DataView, Seq<char>>(b@),
            Err(e) => data_result(content@, path_or_ext@) == Err::<DataView, Seq<char>>(e@),
        },
{
    match data_format(path_or_ext) {
        Err(m) => Err(m),
        Ok(DataFormat::Csv) => match parse_csv(content) {
            Ok(c) => {
                let b = DataBinding { metrics: Vec::new(), chart: c };
                assert(b@.metrics =~= Seq::<MetricView>::empty());
                Ok(b)
            },
            Err(e) => Err(e),
        },
        Ok(DataFormat::Json) => match parse_json(content) {
            Ok(j) => {
                let ghost jv = j@;
                let chart = match j.chart {
                    Some(c) => Some(CsvChart { labels: c.labels, values: c.values, series: Vec::new(), series_names: Vec::new() }),
                    None => None,
                };
                let b = DataBinding { metrics: j.metrics, chart };
                assert(b@.metrics =~= jv.metrics);
                proof {
                    if let Some(c) = &b.chart {
                        assert(c@.series =~= Seq::<Seq<Seq<char>>>::empty());
                        assert(c@.series_names =~= Seq::<Seq<char>>::empty());
                    }
                }
                Ok(b)
            },
            Err(e) => Err(e),
        },
    }
}

/// Whether a result is an error whose message begins `unsupported data
/// format`.
pub open spec fn names_unsupported(r: Result<DataView, Seq<char>>) -> bool {
    match r {
        Err(m) => m.len() >= 23 && m.subrange(0, 23) == "unsupported data format"@,
        Ok(_) => false,
    }
}

/// Every error of the CSV rows begins with `n` (`non-numeric value ...`).
proof fn lemma_csv_rows_error(rows: Seq<Seq<char>>)
    ensures
        match crate::data_binding::csv_rows(rows) {
            Err(e) => e.len() > 0 && e[0] == 'n',
            Ok(_) => true,
        },
    decreases rows.len(),
{
    reveal_strlit("non-numeric value in row: ");
    if rows.len() > 0 {
        lemma_csv_rows_error(rows.drop_last());
    }
}

/// Reading data depends on the path's extension alone and not on its case:
/// the result is an error beginning `unsupported data format` exactly when
/// the extension is neither `csv` nor `json`, and then it is
/// `unsupported data format: ...` naming the extension; otherwise, and for
/// any ASCII path, it is what reading the content at `x.` followed by the
/// lower-cased extension gives.
pub proof fn lemma_data_case_insensitive(content: Seq<char>, path: Seq<char>)
    ensures
        names_unsupported(data_result(content, path)) <==> (extension(path) != "csv"@ && extension(path) != "json"@),
        (extension(path) != "csv"@ && extension(path) != "json"@) ==> data_result(content, path) == Err::<DataView, Seq<char>>(
            "unsupported data format: "@ + extension(path) + " (use .csv or .json)"@,
        ),
        (all_ascii(path) || extension(path) == "csv"@ || extension(path) == "json"@) ==> data_result(content, path)
            == data_result(content, "x."@ + extension(path)),
{
    lemma_format_case_insensitive(path);
    reveal_strlit("unsupported data format");
    reveal_strlit("unsupported data format: ");
    let ext = extension(path);
    if ext != "csv"@ && ext != "json"@ {
        let m = "unsupported data format: "@ + ext + " (use .csv or .json)"@;
        assert(m.subrange(0, 23) =~= "unsupported data format"@);
    } else {
        let r = data_result(content, path);
        if names_unsupported(r) {
            let m = r->Err_0;
            assert(m[0] == m.subrange(0, 23)[0]);
            assert(m[0] == 'u');
            reveal_strlit("empty CSV");
            reveal_strlit("CSV needs at least 2 columns");
            reveal_strlit("invalid JSON: ");
            reveal_strlit("bad array item");
            reveal_strlit("JSON must be an object or array");
            let ls = crate::data_binding::nonblank(crate::textscan::lines(content));
            if ls.len() > 0 {
                lemma_csv_rows_error(ls.skip(1));
            }
            match json_read(content) {
                Ok(d) => {},
                Err(e) => {
                    assert(("invalid JSON: "@ + e)[0] == 'i');
                },
            }
        }
    }
}

} // verus!
