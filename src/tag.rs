//! Tagged values and their literal text.
use vstd::prelude::*;
use vstd::string::StringExecFns;
use crate::text::{
    int_text, join, lemma_int_text_unbroken, lemma_join_take, lemma_join_unbroken,
    lemma_unbroken_add, push_int, unbroken,
};

verus! {

broadcast use vstd::std_specs::vec::group_vec_axioms, vstd::seq::group_seq_axioms;

/// A tagged value: a scalar, an array of integers, a list, or a compound of named
/// values kept in order. A float is held as its decimal text.
#[derive(Debug)]
pub enum Tag {
    Byte(i8),
    Short(i16),
    Int(i32),
    Long(i64),
    Float(String),
    Double(String),
    ByteArray(Vec<i8>),
    String(String),
    List(Vec<Tag>),
    Compound(Vec<(String, Tag)>),
    IntArray(Vec<i32>),
    LongArray(Vec<i64>),
}

/// `[` parts joined by `, ` `]`.
pub open spec fn bracketed(parts: Seq<Seq<char>>) -> Seq<char> {
    "["@ + join(parts, ", "@) + "]"@
}

/// The literal text of a value.
pub open spec fn encode_spec(t: Tag) -> Seq<char>
    decreases t,
{
    match t {
        Tag::Byte(v) => int_text(v as int) + "b"@,
        Tag::Short(v) => int_text(v as int) + "s"@,
        Tag::Int(v) => int_text(v as int),
        Tag::Long(v) => int_text(v as int) + "L"@,
        Tag::Float(v) => v@ + "f"@,
        Tag::Double(v) => v@ + "d"@,
        Tag::String(v) => "\""@ + v@ + "\""@,
        Tag::ByteArray(v) => bracketed(v@.map_values(|x: i8| int_text(x as int) + "b"@)),
        Tag::IntArray(v) => bracketed(v@.map_values(|x: i32| int_text(x as int))),
        Tag::LongArray(v) => bracketed(v@.map_values(|x: i64| int_text(x as int) + "L"@)),
        Tag::List(v) => "["@ + encode_items_spec(v@) + "]"@,
        Tag::Compound(v) => "{"@ + encode_entries_spec(v@) + "}"@,
    }
}

/// The literal texts of the items, joined by `, `.
pub open spec fn encode_items_spec(s: Seq<Tag>) -> Seq<char>
    decreases s,
{
    if s.len() == 0 {
        Seq::empty()
    } else if s.len() == 1 {
        encode_spec(s[0])
    } else {
        encode_items_spec(s.drop_last()) + ", "@ + encode_spec(s.last())
    }
}

/// Each entry as `key: literal`, joined by `, `.
pub open spec fn encode_entries_spec(s: Seq<(String, Tag)>) -> Seq<char>
    decreases s,
{
    if s.len() == 0 {
        Seq::empty()
    } else if s.len() == 1 {
        s[0].0@ + ": "@ + encode_spec(s[0].1)
    } else {
        encode_entries_spec(s.drop_last()) + ", "@ + s.last().0@ + ": "@ + encode_spec(s.last().1)
    }
}

/// No text inside the value (strings, float texts, keys) holds a line break.
pub open spec fn tag_unbroken(t: Tag) -> bool
    decreases t,
{
    match t {
        Tag::Float(v) => unbroken(v@),
        Tag::Double(v) => unbroken(v@),
        Tag::String(v) => unbroken(v@),
        Tag::List(v) => items_unbroken(v@),
        Tag::Compound(v) => entries_unbroken(v@),
        _ => true,
    }
}

/// No item holds a line break.
pub open spec fn items_unbroken(s: Seq<Tag>) -> bool
    decreases s,
{
    if s.len() == 0 {
        true
    } else {
        items_unbroken(s.drop_last()) && tag_unbroken(s.last())
    }
}

/// No key or value holds a line break.
pub open spec fn entries_unbroken(s: Seq<(String, Tag)>) -> bool
    decreases s,
{
    if s.len() == 0 {
        true
    } else {
        entries_unbroken(s.drop_last()) && unbroken(s.last().0@) && tag_unbroken(s.last().1)
    }
}

/// The literal text of a value without line breaks inside has none either.
pub proof fn lemma_encode_unbroken(t: Tag)
    requires
        tag_unbroken(t),
    ensures
        unbroken(encode_spec(t)),
    decreases t,
{
    broadcast use lemma_unbroken_add;

    reveal_strlit("b");
    reveal_strlit("s");
    reveal_strlit("L");
    reveal_strlit("f");
    reveal_strlit("d");
    reveal_strlit("\"");
    reveal_strlit("[");
    reveal_strlit("]");
    reveal_strlit("{");
    reveal_strlit("}");
    reveal_strlit(", ");
    match t {
        Tag::Byte(v) => lemma_int_text_unbroken(v as int),
        Tag::Short(v) => lemma_int_text_unbroken(v as int),
        Tag::Int(v) => lemma_int_text_unbroken(v as int),
        Tag::Long(v) => lemma_int_text_unbroken(v as int),
        Tag::ByteArray(v) => {
            let parts = v@.map_values(|x: i8| int_text(x as int) + "b"@);
            assert forall|i: int| 0 <= i < parts.len() implies unbroken(#[trigger] parts[i]) by {
                lemma_int_text_unbroken(v@[i] as int);
            }
            lemma_join_unbroken(parts, ", "@);
        },
        Tag::IntArray(v) => {
            let parts = v@.map_values(|x: i32| int_text(x as int));
            assert forall|i: int| 0 <= i < parts.len() implies unbroken(#[trigger] parts[i]) by {
                lemma_int_text_unbroken(v@[i] as int);
            }
            lemma_join_unbroken(parts, ", "@);
        },
        Tag::LongArray(v) => {
            let parts = v@.map_values(|x: i64| int_text(x as int) + "L"@);
            assert forall|i: int| 0 <= i < parts.len() implies unbroken(#[trigger] parts[i]) by {
                lemma_int_text_unbroken(v@[i] as int);
            }
            lemma_join_unbroken(parts, ", "@);
        },
        Tag::List(v) => lemma_items_unbroken(v@),
        Tag::Compound(v) => lemma_entries_unbroken(v@),
        _ => {},
    }
}

proof fn lemma_items_unbroken(s: Seq<Tag>)
    requires
        items_unbroken(s),
    ensures
        unbroken(encode_items_spec(s)),
    decreases s,
{
    broadcast use lemma_unbroken_add;

    reveal_strlit(", ");
    if s.len() > 0 {
        lemma_encode_unbroken(s.last());
        if s.len() > 1 {
            lemma_items_unbroken(s.drop_last());
        }
    }
}

proof fn lemma_entries_unbroken(s: Seq<(String, Tag)>)
    requires
        entries_unbroken(s),
    ensures
        unbroken(encode_entries_spec(s)),
    decreases s,
{
    broadcast use lemma_unbroken_add;

    reveal_strlit(", ");
    reveal_strlit(": ");
    if s.len() > 0 {
        lemma_encode_unbroken(s.last().1);
        if s.len() > 1 {
            lemma_entries_unbroken(s.drop_last());
        }
    }
}

/// Appends the literal text of `t`.
pub fn encode_into(t: &Tag, out: &mut String)
    ensures
        final(out)@ == old(out)@ + encode_spec(*t),
    decreases t,
{
    match t {
        Tag::Byte(v) => {
            push_int(out, *v as i64);
            out.append("b");
        },
        Tag::Short(v) => {
            push_int(out, *v as i64);
            out.append("s");
        },
        Tag::Int(v) => {
            push_int(out, *v as i64);
        },
        Tag::Long(v) => {
            push_int(out, *v);
            out.append("L");
        },
        Tag::Float(v) => {
            out.append(v.as_str());
            out.append("f");
        },
        Tag::Double(v) => {
            out.append(v.as_str());
            out.append("d");
        },
        Tag::String(v) => {
            out.append("\"");
            out.append(v.as_str());
            out.append("\"");
        },
        Tag::ByteArray(v) => push_byte_array(v, out),
        Tag::IntArray(v) => push_int_array(v, out),
        Tag::LongArray(v) => push_long_array(v, out),
        Tag::List(v) => encode_list_into(v, out),
        Tag::Compound(v) => encode_entries_into(v, out),
    }
}

fn push_byte_array(v: &Vec<i8>, out: &mut String)
    ensures
        final(out)@ == old(out)@ + bracketed(v@.map_values(|x: i8| int_text(x as int) + "b"@)),
{
    let ghost start = out@;
    let ghost parts = v@.map_values(|x: i8| int_text(x as int) + "b"@);
    out.append("[");
    let mut i: usize = 0;
    while i < v.len()
        invariant
            i <= v.len(),
            parts == v@.map_values(|x: i8| int_text(x as int) + "b"@),
            out@ == start + "["@ + join(parts.take(i as int), ", "@),
        decreases v.len() - i,
    {
        proof {
            lemma_join_take(parts, ", "@, i as int);
        }
        if i > 0 {
            out.append(", ");
        }
        push_int(out, v[i] as i64);
        out.append("b");
        i += 1;
    }
    assert(parts.take(v.len() as int) =~= parts);
    out.append("]");
}

fn push_int_array(v: &Vec<i32>, out: &mut String)
    ensures
        final(out)@ == old(out)@ + bracketed(v@.map_values(|x: i32| int_text(x as int))),
{
    let ghost start = out@;
    let ghost parts = v@.map_values(|x: i32| int_text(x as int));
    out.append("[");
    let mut i: usize = 0;
    while i < v.len()
        invariant
            i <= v.len(),
            parts == v@.map_values(|x: i32| int_text(x as int)),
            out@ == start + "["@ + join(parts.take(i as int), ", "@),
        decreases v.len() - i,
    {
        proof {
            lemma_join_take(parts, ", "@, i as int);
        }
        if i > 0 {
            out.append(", ");
        }
        push_int(out, v[i] as i64);
        i += 1;
    }
    assert(parts.take(v.len() as int) =~= parts);
    out.append("]");
}

fn push_long_array(v: &Vec<i64>, out: &mut String)
    ensures
        final(out)@ == old(out)@ + bracketed(v@.map_values(|x: i64| int_text(x as int) + "L"@)),
{
    let ghost start = out@;
    let ghost parts = v@.map_values(|x: i64| int_text(x as int) + "L"@);
    out.append("[");
    let mut i: usize = 0;
    while i < v.len()
        invariant
            i <= v.len(),
            parts == v@.map_values(|x: i64| int_text(x as int) + "L"@),
            out@ == start + "["@ + join(parts.take(i as int), ", "@),
        decreases v.len() - i,
    {
        proof {
            lemma_join_take(parts, ", "@, i as int);
        }
        if i > 0 {
            out.append(", ");
        }
        push_int(out, v[i]);
        out.append("L");
        i += 1;
    }
    assert(parts.take(v.len() as int) =~= parts);
    out.append("]");
}

fn encode_list_into(v: &Vec<Tag>, out: &mut String)
    ensures
        final(out)@ == old(out)@ + "["@ + encode_items_spec(v@) + "]"@,
    decreases v,
{
    let ghost start = out@;
    out.append("[");
    let mut i: usize = 0;
    while i < v.len()
        invariant
            i <= v.len(),
            out@ == start + "["@ + encode_items_spec(v@.take(i as int)),
        decreases v.len() - i,
    {
        assert(v@.take(i + 1).drop_last() =~= v@.take(i as int));
        if i > 0 {
            out.append(", ");
        }
        assert(decreases_to!(v => v[i as int]));
        encode_into(&v[i], out);
        i += 1;
    }
    assert(v@.take(v.len() as int) =~= v@);
    out.append("]");
}

fn encode_entries_into(v: &Vec<(String, Tag)>, out: &mut String)
    ensures
        final(out)@ == old(out)@ + "{"@ + encode_entries_spec(v@) + "}"@,
    decreases v,
{
    let ghost start = out@;
    out.append("{");
    let mut i: usize = 0;
    while i < v.len()
        invariant
            i <= v.len(),
            out@ == start + "{"@ + encode_entries_spec(v@.take(i as int)),
        decreases v.len() - i,
    {
        assert(v@.take(i + 1).drop_last() =~= v@.take(i as int));
        if i > 0 {
            out.append(", ");
        }
        out.append(v[i].0.as_str());
        out.append(": ");
        assert(decreases_to!(v => v[i as int]));
        encode_into(&v[i].1, out);
        i += 1;
    }
    assert(v@.take(v.len() as int) =~= v@);
    out.append("}");
}

/// The literal text of a value.
pub fn encode(t: &Tag) -> (r: String)
    ensures
        r@ == encode_spec(*t),
{
    let mut out = String::new();
    encode_into(t, &mut out);
    assert(out@ =~= encode_spec(*t));
    out
}

} // verus!
