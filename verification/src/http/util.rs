//! Splitting the head of an HTTP request into its request line and a map of
//! header fields.

use vstd::prelude::*;
use vstd::hash_map::StringHashMap;
use crate::text::{chars_of, first_of, lemma_first_of, lemma_without_absent, push_char, without};

verus! {

/// The name of a header line: everything before its first colon (the whole
/// line when it has none).
pub open spec fn header_name(line: Seq<char>) -> Seq<char> {
    line.take(first_of(line, ':') as int)
}

/// The value of a header line: what follows its first colon, with every
/// further colon taken out (the pieces after the first colon, joined); empty
/// when the line has no colon.
pub open spec fn header_value(line: Seq<char>) -> Seq<char> {
    let k = first_of(line, ':');
    if k < line.len() {
        without(line.skip((k + 1) as int), ':')
    } else {
        Seq::empty()
    }
}

/// The header fields of the first `n` lines of a request head: every line
/// but the first, in order, a later line overriding an earlier one of the
/// same name.
pub open spec fn header_fields(lines: Seq<Seq<char>>, n: nat) -> Map<Seq<char>, Seq<char>>
    decreases n,
{
    if n <= 1 {
        Map::empty()
    } else {
        header_fields(lines, (n - 1) as nat).insert(
            header_name(lines[n - 1]),
            header_value(lines[n - 1]),
        )
    }
}

/// The request line of a request head: its first line, or empty.
pub open spec fn request_line(lines: Seq<Seq<char>>) -> Seq<char> {
    if lines.len() > 0 {
        lines[0]
    } else {
        Seq::empty()
    }
}

/// The characters of each line.
pub open spec fn line_views(lines: Seq<String>) -> Seq<Seq<char>> {
    lines.map_values(|l: String| l@)
}

/// Splits one header line into its name and value.
pub fn parse_header_line(line: &String) -> (r: (String, String))
    ensures
        r.0@ == header_name(line@),
        r.1@ == header_value(line@),
{
    let cs = chars_of(line.as_str());
    let n = cs.len();
    let mut name = String::new();
    let mut k: usize = 0;
    while k < n && cs[k] != ':'
        invariant
            cs@ == line@,
            n == cs@.len(),
            k <= n,
            forall|j: int| 0 <= j < k ==> cs@[j] != ':',
            name@ == cs@.take(k as int),
        decreases n - k,
    {
        push_char(&mut name, cs[k]);
        assert(cs@.take(k + 1) =~= cs@.take(k as int).push(cs@[k as int]));
        k = k + 1;
    }
    proof {
        lemma_first_of(cs@, ':', k as int);
    }
    let mut value = String::new();
    if k < n {
        let mut j: usize = k + 1;
        assert(cs@.subrange(k + 1, k + 1) =~= Seq::<char>::empty());
        while j < n
            invariant
                cs@ == line@,
                n == cs@.len(),
                k < j <= n,
                value@ == without(cs@.subrange(k + 1, j as int), ':'),
            decreases n - j,
        {
            let c = cs[j];
            assert(cs@.subrange(k + 1, j + 1).drop_last() =~= cs@.subrange(k + 1, j as int));
            if c != ':' {
                push_char(&mut value, c);
            }
            j = j + 1;
        }
        assert(cs@.subrange(k + 1, n as int) =~= cs@.skip(k + 1));
    }
    (name, value)
}

/// The header fields and the request line of a request head, given as its
/// lines: the first line is the request line (empty when there are no
/// lines); each later line contributes its name and value, a later line
/// overriding an earlier one of the same name.
pub fn determine_headers(vector: &Vec<String>) -> (r: (StringHashMap<String>, String))
    ensures
        r.1@ == request_line(line_views(vector@)),
        r.0@.dom() == header_fields(line_views(vector@), vector@.len()).dom(),
        forall|k: Seq<char>| #[trigger] r.0@.contains_key(k) ==> r.0@[k]@ == header_fields(
            line_views(vector@),
            vector@.len(),
        )[k],
{
    let ghost lines = line_views(vector@);
    let mut header_map: StringHashMap<String> = StringHashMap::new();
    let n = vector.len();
    if n == 0 {
        assert(header_fields(lines, 0) =~= Map::<Seq<char>, Seq<char>>::empty());
        return (header_map, String::new());
    }
    let request_type = vector[0].clone();
    assert(header_fields(lines, 1) =~= Map::<Seq<char>, Seq<char>>::empty());
    let mut i: usize = 1;
    while i < n
        invariant
            n == vector@.len(),
            lines == line_views(vector@),
            1 <= i <= n,
            header_map@.dom() == header_fields(lines, i as nat).dom(),
            forall|k: Seq<char>| #[trigger] header_map@.contains_key(k) ==> header_map@[k]@
                == header_fields(lines, i as nat)[k],
        decreases n - i,
    {
        let (name, value) = parse_header_line(&vector[i]);
        assert(lines[i as int] == vector@[i as int]@);
        header_map.insert(name, value);
        assert(header_map@.dom() =~= header_fields(lines, (i + 1) as nat).dom());
        i = i + 1;
    }
    (header_map, request_type)
}

/// A header line is split at its first colon and only colons are taken out
/// of the value: for a name without `:` and a value without `:`, the line
/// `name:value` parses back to exactly that name and that value (every other
/// character of the value, `;` and spaces included, is kept in order).
pub proof fn law_header_line_round_trip(name: Seq<char>, value: Seq<char>)
    requires
        !name.contains(':'),
        !value.contains(':'),
    ensures
        header_name(name + seq![':'] + value) == name,
        header_value(name + seq![':'] + value) == value,
{
    let line = name + seq![':'] + value;
    assert forall|j: int| 0 <= j < name.len() implies line[j] != ':' by {
        assert(line[j] == name[j]);
        if name[j] == ':' {
            assert(name.contains(':'));
        }
    }
    assert(line[name.len() as int] == ':');
    lemma_first_of(line, ':', name.len() as int);
    assert(line.take(name.len() as int) =~= name);
    assert(line.skip(name.len() + 1int) =~= value);
    lemma_without_absent(value, ':');
}

/// A line without a colon is all name and has an empty value.
pub proof fn law_header_line_without_colon(line: Seq<char>)
    requires
        !line.contains(':'),
    ensures
        header_name(line) == line,
        header_value(line) == Seq::<char>::empty(),
{
    assert forall|j: int| 0 <= j < line.len() implies line[j] != ':' by {
        if line[j] == ':' {
            assert(line.contains(':'));
        }
    }
    lemma_first_of(line, ':', line.len() as int);
    assert(line.take(line.len() as int) =~= line);
}

} // verus!
