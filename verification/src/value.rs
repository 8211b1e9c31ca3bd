//! The value model onto which terms and descriptors are projected: objects
//! with named fields, arrays, texts, numbers, booleans and the null value.

use vstd::prelude::*;

verus! {

/// A value of the model.
#[derive(Debug, PartialEq, Eq)]
pub enum Value {
    Null,
    Bool(bool),
    Number(u64),
    Text(String),
    Array(Vec<Value>),
    /// The fields in the order in which they were set.
    Object(Vec<(String, Value)>),
}

/// The mathematical model of a [`Value`].
pub enum ValueView {
    Null,
    Bool(bool),
    Number(nat),
    Text(Seq<char>),
    Array(Seq<ValueView>),
    Object(Seq<(Seq<char>, ValueView)>),
}

impl Value {
    /// The model of a value.
    pub open spec fn model(self) -> ValueView
        decreases self,
    {
        match self {
            Value::Null => ValueView::Null,
            Value::Bool(b) => ValueView::Bool(b),
            Value::Number(n) => ValueView::Number(n as nat),
            Value::Text(s) => ValueView::Text(s@),
            Value::Array(items) => ValueView::Array(
                Seq::new(
                    items@.len(),
                    |i: int|
                        if 0 <= i < items@.len() {
                            items@[i].model()
                        } else {
                            arbitrary()
                        },
                ),
            ),
            Value::Object(fields) => ValueView::Object(
                Seq::new(
                    fields@.len(),
                    |i: int|
                        if 0 <= i < fields@.len() {
                            (fields@[i].0@, fields@[i].1.model())
                        } else {
                            arbitrary()
                        },
                ),
            ),
        }
    }
}

impl View for Value {
    type V = ValueView;

    open spec fn view(&self) -> ValueView {
        self.model()
    }
}

/// The models of a list of values.
pub open spec fn value_views(v: Seq<Value>) -> Seq<ValueView> {
    Seq::new(v.len(), |i: int| v[i]@)
}

/// The models of a list of fields.
pub open spec fn field_views(v: Seq<(String, Value)>) -> Seq<(Seq<char>, ValueView)> {
    Seq::new(v.len(), |i: int| (v[i].0@, v[i].1@))
}

/// An object with one field.
pub open spec fn tagged(tag: Seq<char>, payload: ValueView) -> ValueView {
    ValueView::Object(seq![(tag, payload)])
}

/// The items of an array are modelled one by one.
pub proof fn lemma_array_model(items: Vec<Value>)
    ensures
        Value::Array(items)@ == ValueView::Array(value_views(items@)),
{
    let v = Value::Array(items);
    assert(v@ matches ValueView::Array(s) && s =~= value_views(items@));
}

/// The fields of an object are modelled one by one.
pub proof fn lemma_object_model(fields: Vec<(String, Value)>)
    ensures
        Value::Object(fields)@ == ValueView::Object(field_views(fields@)),
{
    let v = Value::Object(fields);
    assert(v@ matches ValueView::Object(s) && s =~= field_views(fields@));
}

impl Value {
    /// An object with the one field `tag`.
    pub fn tagged(tag: &str, payload: Value) -> (v: Value)
        ensures
            v@ == tagged(tag@, payload@),
    {
        let mut fields: Vec<(String, Value)> = Vec::new();
        fields.push((String::from_str(tag), payload));
        proof {
            lemma_object_model(fields);
            assert(field_views(fields@) =~= seq![(tag@, payload@)]);
        }
        Value::Object(fields)
    }

    /// A text.
    pub fn text(s: &str) -> (v: Value)
        ensures
            v@ == ValueView::Text(s@),
    {
        Value::Text(String::from_str(s))
    }

    /// An array of two values.
    pub fn pair(a: Value, b: Value) -> (v: Value)
        ensures
            v@ == ValueView::Array(seq![a@, b@]),
    {
        let mut items: Vec<Value> = Vec::new();
        items.push(a);
        items.push(b);
        proof {
            lemma_array_model(items);
            assert(value_views(items@) =~= seq![a@, b@]);
        }
        Value::Array(items)
    }

    /// An array of three values.
    pub fn triple(a: Value, b: Value, c: Value) -> (v: Value)
        ensures
            v@ == ValueView::Array(seq![a@, b@, c@]),
    {
        let mut items: Vec<Value> = Vec::new();
        items.push(a);
        items.push(b);
        items.push(c);
        proof {
            lemma_array_model(items);
            assert(value_views(items@) =~= seq![a@, b@, c@]);
        }
        Value::Array(items)
    }

    /// An array of texts.
    pub fn texts(keys: &Vec<String>) -> (v: Value)
        ensures
            v@ == ValueView::Array(Seq::new(keys@.len(), |i: int| ValueView::Text(keys@[i]@))),
    {
        let mut items: Vec<Value> = Vec::new();
        let mut i: usize = 0;
        while i < keys.len()
            invariant
                i <= keys.len(),
                items.len() == i,
                forall|j: int| 0 <= j < i ==> (#[trigger] items@[j])@ == ValueView::Text(keys@[j]@),
            decreases keys.len() - i,
        {
            items.push(Value::Text(keys[i].clone()));
            i += 1;
        }
        proof {
            lemma_array_model(items);
            assert(value_views(items@) =~= Seq::new(
                keys@.len(),
                |i: int| ValueView::Text(keys@[i]@),
            ));
        }
        Value::Array(items)
    }
}

} // verus!
