//! Mode options: typed JSON values kept by name.

use vstd::prelude::*;
use crate::json::{JsonNumber, JsonSpec, JsonValue, spec_as_u64, number_from_i64};
use crate::text::{hex_color_spec, parse_hex_color, str_eq};

verus! {

/// An option value with the name of its type ("int", "float", "bool", "color", ...).
#[derive(Debug, PartialEq)]
pub struct OptValue {
    pub value: JsonValue,
    pub opt_type: String,
}

/// The mathematical form of an option value.
pub struct OptSpec {
    pub value: JsonSpec,
    pub opt_type: Seq<char>,
}

impl View for OptValue {
    type V = OptSpec;

    open spec fn view(&self) -> OptSpec {
        OptSpec { value: self.value@, opt_type: self.opt_type@ }
    }
}

/// The JSON array of a color's three channels.
pub open spec fn color_json(c: (u8, u8, u8)) -> JsonSpec {
    JsonSpec::Array(
        seq![
            JsonSpec::Number(JsonNumber::PosInt(c.0 as u64)),
            JsonSpec::Number(JsonNumber::PosInt(c.1 as u64)),
            JsonSpec::Number(JsonNumber::PosInt(c.2 as u64)),
        ],
    )
}

/// The integer option `val`.
pub open spec fn int_opt_spec(val: i64) -> OptSpec {
    OptSpec { value: JsonSpec::Number(number_from_i64(val)), opt_type: "int"@ }
}

/// The float option given by the bit pattern `bits`.
pub open spec fn float_opt_spec(bits: u64) -> OptSpec {
    OptSpec { value: JsonSpec::Number(JsonNumber::Float(bits)), opt_type: "float"@ }
}

/// The boolean option `val`.
pub open spec fn bool_opt_spec(val: bool) -> OptSpec {
    OptSpec { value: JsonSpec::Bool(val), opt_type: "bool"@ }
}

/// The color option `c`.
pub open spec fn color_opt_spec(c: (u8, u8, u8)) -> OptSpec {
    OptSpec { value: color_json(c), opt_type: "color"@ }
}

/// `cur` with the value of every name it shares with `input` taken from
/// `input`; names only `input` has are left out.
pub open spec fn merge_existing(
    cur: Map<Seq<char>, OptSpec>,
    input: Map<Seq<char>, OptSpec>,
) -> Map<Seq<char>, OptSpec> {
    Map::new(
        |k: Seq<char>| cur.contains_key(k),
        |k: Seq<char>|
            if input.contains_key(k) {
                input[k]
            } else {
                cur[k]
            },
    )
}

/// Whether a bit pattern is that of a finite binary64 number.
pub open spec fn is_finite_bits(bits: u64) -> bool {
    (bits >> 52u64) & 0x7ffu64 != 0x7ffu64
}

/// The color a JSON value names: a `#RRGGBB` string, or an array of three
/// unsigned integers (each kept modulo 256).
pub open spec fn parse_color_spec(v: JsonSpec) -> Option<(u8, u8, u8)> {
    match v {
        JsonSpec::Str(s) => hex_color_spec(s),
        JsonSpec::Array(a) => if a.len() == 3 {
            match (spec_as_u64(a[0]), spec_as_u64(a[1]), spec_as_u64(a[2])) {
                (Some(r), Some(g), Some(b)) => Some((r as u8, g as u8, b as u8)),
                _ => None,
            }
        } else {
            None
        },
        _ => None,
    }
}

impl OptValue {
    /// An integer option.
    pub fn create_int(val: i64) -> (res: Self)
        ensures
            res@ == int_opt_spec(val),
    {
        OptValue { value: JsonValue::from_i64(val), opt_type: "int".to_owned() }
    }

    /// A float option, given by the bit pattern of a finite binary64 number.
    pub fn create_float(bits: u64) -> (res: Self)
        requires
            is_finite_bits(bits),
        ensures
            res@ == float_opt_spec(bits),
    {
        OptValue { value: JsonValue::Number(JsonNumber::Float(bits)), opt_type: "float".to_owned() }
    }

    /// A boolean option.
    pub fn create_bool(val: bool) -> (res: Self)
        ensures
            res@ == bool_opt_spec(val),
    {
        OptValue { value: JsonValue::Bool(val), opt_type: "bool".to_owned() }
    }

    /// A color option, stored as the array of its channels.
    pub fn create_color(color: [u8; 3]) -> (res: Self)
        ensures
            res@ == color_opt_spec((color[0], color[1], color[2])),
    {
        let mut arr: Vec<JsonValue> = Vec::new();
        arr.push(JsonValue::from_u8(color[0]));
        arr.push(JsonValue::from_u8(color[1]));
        arr.push(JsonValue::from_u8(color[2]));
        let res = OptValue { value: JsonValue::Array(arr), opt_type: "color".to_owned() };
        assert(res@.value->Array_0 =~= color_json((color[0], color[1], color[2]))->Array_0);
        res
    }

    /// A copy of the option.
    pub fn deep_clone(&self) -> (res: Self)
        ensures
            res@ == self@,
    {
        OptValue { value: self.value.deep_clone(), opt_type: self.opt_type.clone() }
    }
}

/// Parses a color from a JSON value: `"#RRGGBB"` or `[r, g, b]`.
pub fn parse_color(val: &JsonValue) -> (res: Option<[u8; 3]>)
    ensures
        match res {
            Some(c) => parse_color_spec(val@) == Some((c[0], c[1], c[2])),
            None => parse_color_spec(val@) is None,
        },
{
    match val {
        JsonValue::String(s) => parse_hex_color(s.as_str()),
        JsonValue::Array(arr) => {
            if arr.len() == 3 {
                proof {
                    assert(val@->Array_0[0] == arr@[0]@);
                    assert(val@->Array_0[1] == arr@[1]@);
                    assert(val@->Array_0[2] == arr@[2]@);
                }
                let r = arr[0].as_u64();
                let g = arr[1].as_u64();
                let b = arr[2].as_u64();
                match (r, g, b) {
                    (Some(r), Some(g), Some(b)) => Some([r as u8, g as u8, b as u8]),
                    _ => None,
                }
            } else {
                None
            }
        },
        _ => None,
    }
}

/// Options by name; no name occurs twice.
#[derive(Debug, PartialEq)]
pub struct OptMap {
    pub entries: Vec<(String, OptValue)>,
}

/// The map of a list of named options (a later entry wins over an earlier one).
pub open spec fn entries_map(e: Seq<(String, OptValue)>) -> Map<Seq<char>, OptSpec>
    decreases e.len(),
{
    if e.len() == 0 {
        Map::empty()
    } else {
        entries_map(e.drop_last()).insert(e.last().0@, e.last().1@)
    }
}

/// No name occurs twice.
pub open spec fn keys_unique(e: Seq<(String, OptValue)>) -> bool {
    forall|i: int, j: int| 0 <= i < e.len() && 0 <= j < e.len() && i != j ==> e[i].0@ != e[j].0@
}

proof fn lemma_entries_dom(e: Seq<(String, OptValue)>, k: Seq<char>)
    ensures
        entries_map(e).contains_key(k) <==> exists|i: int| 0 <= i < e.len() && e[i].0@ == k,
    decreases e.len(),
{
    if e.len() > 0 {
        lemma_entries_dom(e.drop_last(), k);
        if entries_map(e).contains_key(k) && k != e.last().0@ {
            let i = choose|i: int| 0 <= i < e.drop_last().len() && e.drop_last()[i].0@ == k;
            assert(e[i].0@ == k);
        }
        if exists|i: int| 0 <= i < e.len() && e[i].0@ == k {
            let i = choose|i: int| 0 <= i < e.len() && e[i].0@ == k;
            if i < e.len() - 1 {
                assert(e.drop_last()[i].0@ == k);
            }
        }
    }
}

proof fn lemma_entries_at(e: Seq<(String, OptValue)>, i: int)
    requires
        keys_unique(e),
        0 <= i < e.len(),
    ensures
        entries_map(e).contains_key(e[i].0@),
        entries_map(e)[e[i].0@] == e[i].1@,
    decreases e.len(),
{
    if i < e.len() - 1 {
        let d = e.drop_last();
        assert(keys_unique(d));
        assert(d[i] == e[i]);
        lemma_entries_at(d, i);
        assert(e[i].0@ != e.last().0@);
    }
}

impl View for OptMap {
    type V = Map<Seq<char>, OptSpec>;

    open spec fn view(&self) -> Map<Seq<char>, OptSpec> {
        entries_map(self.entries@)
    }
}

/// Two lists name the same options in the same places, with the values of
/// the second given by `f` from those of the first.
pub open spec fn entries_mapped(
    a: Seq<(String, OptValue)>,
    b: Seq<(String, OptValue)>,
    f: spec_fn(OptSpec) -> OptSpec,
) -> bool {
    &&& a.len() == b.len()
    &&& forall|i: int| 0 <= i < a.len() ==> (#[trigger] b[i]).0@ == a[i].0@ && b[i].1@ == f(a[i].1@)
}

/// Mapping every value of a list maps every value of its map.
pub proof fn lemma_entries_mapped(
    a: Seq<(String, OptValue)>,
    b: Seq<(String, OptValue)>,
    f: spec_fn(OptSpec) -> OptSpec,
)
    requires
        keys_unique(a),
        entries_mapped(a, b, f),
    ensures
        keys_unique(b),
        entries_map(b) == entries_map(a).map_values(f),
{
    assert(keys_unique(b));
    assert forall|k: Seq<char>| #[trigger] entries_map(b).contains_key(k) <==> entries_map(a).contains_key(k) by {
        lemma_entries_dom(a, k);
        lemma_entries_dom(b, k);
        if exists|i: int| 0 <= i < a.len() && a[i].0@ == k {
            let i = choose|i: int| 0 <= i < a.len() && a[i].0@ == k;
            assert(b[i].0@ == k);
        }
        if exists|i: int| 0 <= i < b.len() && b[i].0@ == k {
            let i = choose|i: int| 0 <= i < b.len() && b[i].0@ == k;
            assert(a[i].0@ == k);
        }
    }
    assert forall|k: Seq<char>| entries_map(b).contains_key(k) implies entries_map(b)[k] == f(
        entries_map(a)[k],
    ) by {
        lemma_entries_dom(b, k);
        let i = choose|i: int| 0 <= i < b.len() && b[i].0@ == k;
        lemma_entries_at(a, i);
        lemma_entries_at(b, i);
    }
    assert(entries_map(b) =~= entries_map(a).map_values(f));
}

impl OptMap {
    /// The options are well formed: no name occurs twice.
    pub open spec fn wf(&self) -> bool {
        keys_unique(self.entries@)
    }

    /// An empty set of options.
    pub fn new() -> (res: Self)
        ensures
            res.wf(),
            res@ == Map::<Seq<char>, OptSpec>::empty(),
    {
        OptMap { entries: Vec::new() }
    }

    /// The number of options.
    pub fn len(&self) -> (res: usize)
        requires
            self.wf(),
        ensures
            res == self@.len(),
    {
        proof {
            self.lemma_len();
        }
        self.entries.len()
    }

    proof fn lemma_len(&self)
        requires
            self.wf(),
        ensures
            self@.dom().finite(),
            self@.len() == self.entries@.len(),
    {
        lemma_map_len(self.entries@);
    }

    /// The position of the option named `key`.
    fn find(&self, key: &str) -> (res: Option<usize>)
        requires
            self.wf(),
        ensures
            match res {
                Some(i) => i < self.entries@.len() && self.entries@[i as int].0@ == key@,
                None => !self@.contains_key(key@),
            },
    {
        let mut i: usize = 0;
        while i < self.entries.len()
            invariant
                i <= self.entries@.len(),
                forall|j: int| 0 <= j < i ==> self.entries@[j].0@ != key@,
            decreases self.entries@.len() - i,
        {
            if str_eq(self.entries[i].0.as_str(), key) {
                return Some(i);
            }
            i = i + 1;
        }
        proof {
            lemma_entries_dom(self.entries@, key@);
        }
        None
    }

    /// The option named `key`, if any.
    pub fn get(&self, key: &str) -> (res: Option<&OptValue>)
        requires
            self.wf(),
        ensures
            res is Some <==> self@.contains_key(key@),
            res matches Some(v) ==> v@ == self@[key@],
    {
        match self.find(key) {
            Some(i) => {
                proof {
                    lemma_entries_at(self.entries@, i as int);
                }
                Some(&self.entries[i].1)
            },
            None => None,
        }
    }

    /// Whether an option named `key` exists.
    pub fn contains_key(&self, key: &str) -> (res: bool)
        requires
            self.wf(),
        ensures
            res == self@.contains_key(key@),
    {
        match self.find(key) {
            Some(i) => {
                proof {
                    lemma_entries_at(self.entries@, i as int);
                }
                true
            },
            None => false,
        }
    }

    /// Sets the option named `key`, replacing any earlier value.
    pub fn insert(&mut self, key: String, value: OptValue)
        requires
            old(self).wf(),
        ensures
            final(self).wf(),
            final(self)@ == old(self)@.insert(key@, value@),
    {
        let ghost k = key@;
        let ghost v = value@;
        match self.find(key.as_str()) {
            Some(i) => {
                let ghost e = self.entries@;
                self.entries.set(i, (key, value));
                proof {
                    let e2 = self.entries@;
                    assert(keys_unique(e2));
                    assert forall|q: Seq<char>| #[trigger] entries_map(e2).contains_key(q)
                        <==> entries_map(e).insert(k, v).contains_key(q) by {
                        lemma_entries_dom(e, q);
                        lemma_entries_dom(e2, q);
                        if exists|j: int| 0 <= j < e.len() && e[j].0@ == q {
                            let j = choose|j: int| 0 <= j < e.len() && e[j].0@ == q;
                            assert(e2[j].0@ == q);
                        }
                        if exists|j: int| 0 <= j < e2.len() && e2[j].0@ == q {
                            let j = choose|j: int| 0 <= j < e2.len() && e2[j].0@ == q;
                            assert(e[j].0@ == q);
                        }
                    }
                    assert forall|q: Seq<char>| #[trigger] entries_map(e2).contains_key(q)
                        implies entries_map(e2)[q] == entries_map(e).insert(k, v)[q] by {
                        lemma_entries_dom(e2, q);
                        let j = choose|j: int| 0 <= j < e2.len() && e2[j].0@ == q;
                        lemma_entries_at(e2, j);
                        if j != i {
                            lemma_entries_at(e, j);
                        }
                    }
                    assert(entries_map(e2) =~= entries_map(e).insert(k, v));
                }
            },
            None => {
                let ghost e = self.entries@;
                self.entries.push((key, value));
                proof {
                    let e2 = self.entries@;
                    assert(e2.drop_last() =~= e);
                    assert forall|j: int| 0 <= j < e.len() implies e[j].0@ != k by {
                        lemma_entries_dom(e, k);
                    }
                    assert(keys_unique(e2));
                }
            },
        }
    }

    /// A copy of the options.
    pub fn deep_clone(&self) -> (res: Self)
        requires
            self.wf(),
        ensures
            res.wf(),
            res@ == self@,
    {
        let mut out: Vec<(String, OptValue)> = Vec::new();
        let mut i: usize = 0;
        while i < self.entries.len()
            invariant
                i <= self.entries@.len(),
                out@.len() == i,
                forall|j: int|
                    0 <= j < i ==> (#[trigger] out@[j]).0@ == self.entries@[j].0@ && out@[j].1@
                        == self.entries@[j].1@,
            decreases self.entries@.len() - i,
        {
            out.push((self.entries[i].0.clone(), self.entries[i].1.deep_clone()));
            i = i + 1;
        }
        proof {
            let id = |o: OptSpec| o;
            assert(entries_mapped(self.entries@, out@, id));
            lemma_entries_mapped(self.entries@, out@, id);
            assert(entries_map(self.entries@).map_values(id) =~= entries_map(self.entries@));
        }
        OptMap { entries: out }
    }

    /// Sets, for every option of `input` whose name this map already has,
    /// that option's value; other options of `input` are ignored.
    pub fn set_existing(&mut self, input: &OptMap)
        requires
            old(self).wf(),
            input.wf(),
        ensures
            final(self).wf(),
            final(self)@ == merge_existing(old(self)@, input@),
    {
        let ghost orig = self@;
        let mut i: usize = 0;
        while i < input.entries.len()
            invariant
                input.wf(),
                i <= input.entries@.len(),
                self.wf(),
                self@ == Map::new(
                    |k: Seq<char>| orig.contains_key(k),
                    |k: Seq<char>|
                        if entries_map(input.entries@.take(i as int)).contains_key(k) {
                            entries_map(input.entries@.take(i as int))[k]
                        } else {
                            orig[k]
                        },
                ),
            decreases input.entries@.len() - i,
        {
            let ghost before = self@;
            let ghost t = input.entries@.take(i as int + 1);
            proof {
                assert(t.drop_last() =~= input.entries@.take(i as int));
            }
            if self.contains_key(input.entries[i].0.as_str()) {
                let k = input.entries[i].0.clone();
                let v = input.entries[i].1.deep_clone();
                self.insert(k, v);
            }
            proof {
                assert(self@ =~= Map::new(
                    |k: Seq<char>| orig.contains_key(k),
                    |k: Seq<char>|
                        if entries_map(t).contains_key(k) {
                            entries_map(t)[k]
                        } else {
                            orig[k]
                        },
                ));
            }
            i = i + 1;
        }
        proof {
            assert(input.entries@.take(input.entries@.len() as int) =~= input.entries@);
        }
    }
}

proof fn lemma_map_len(e: Seq<(String, OptValue)>)
    requires
        keys_unique(e),
    ensures
        entries_map(e).dom().finite(),
        entries_map(e).len() == e.len(),
    decreases e.len(),
{
    if e.len() > 0 {
        let d = e.drop_last();
        assert(keys_unique(d));
        lemma_map_len(d);
        lemma_entries_dom(d, e.last().0@);
        if entries_map(d).contains_key(e.last().0@) {
            let j = choose|j: int| 0 <= j < d.len() && d[j].0@ == e.last().0@;
            assert(e[j].0@ == e.last().0@);
        }
    }
}

} // verus!
