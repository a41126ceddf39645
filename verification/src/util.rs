//! Small shared utilities: converting a three-part version string into one
//! packed integer, reading a JSON array of strings into plain values, and
//! the current time.

use vstd::prelude::*;

use crate::parse::all_digits;
use crate::parse::dec_val;
use crate::parse::parse_dec_bounded;
use crate::parse::str_chars;

verus! {

/// The index of the first `.` in `s`, or a negative value when there is
/// none.
pub open spec fn first_dot(s: Seq<char>) -> int
    decreases s.len(),
{
    if s.len() == 0 {
        -1
    } else if s[0] == '.' {
        0
    } else {
        let r = first_dot(s.drop_first());
        if r < 0 {
            -1
        } else {
            r + 1
        }
    }
}

/// A non-negative first-dot index is in bounds and names a dot with none
/// before it; a negative one means there is no dot at all.
pub proof fn lemma_first_dot(s: Seq<char>)
    ensures
        first_dot(s) >= 0 ==> first_dot(s) < s.len() && s[first_dot(s)] == '.',
        first_dot(s) >= 0 ==> forall|j: int| 0 <= j < first_dot(s) ==> s[j] != '.',
        first_dot(s) < 0 ==> forall|j: int| 0 <= j < s.len() ==> s[j] != '.',
    decreases s.len(),
{
    if s.len() == 0 {
    } else if s[0] == '.' {
    } else {
        lemma_first_dot(s.drop_first());
        assert forall|j: int| 0 <= j < s.len() && first_dot(s) < 0 implies s[j] != '.' by {
            if j > 0 {
                assert(s.drop_first()[j - 1] == s[j]);
            }
        }
        if first_dot(s) >= 0 {
            assert(s.drop_first()[first_dot(s.drop_first())] == s[first_dot(s)]);
            assert forall|j: int| 0 <= j < first_dot(s) implies s[j] != '.' by {
                if j > 0 {
                    assert(s.drop_first()[j - 1] == s[j]);
                }
            }
        }
    }
}

/// The first dot is exactly the dot at `k` when no earlier character is a
/// dot.
pub proof fn lemma_first_dot_at(s: Seq<char>, k: int)
    requires
        0 <= k < s.len(),
        s[k] == '.',
        forall|j: int| 0 <= j < k ==> s[j] != '.',
    ensures
        first_dot(s) == k,
    decreases s.len(),
{
    if k == 0 {
    } else {
        assert forall|j: int| 0 <= j < k - 1 implies s.drop_first()[j] != '.' by {
            assert(s.drop_first()[j] == s[j + 1]);
        }
        assert(s.drop_first()[k - 1] == s[k]);
        lemma_first_dot_at(s.drop_first(), k - 1);
    }
}

/// There is no first dot when no character is a dot.
pub proof fn lemma_first_dot_none(s: Seq<char>)
    requires
        forall|j: int| 0 <= j < s.len() ==> s[j] != '.',
    ensures
        first_dot(s) < 0,
    decreases s.len(),
{
    if s.len() > 0 {
        assert forall|j: int| 0 <= j < s.drop_first().len() implies s.drop_first()[j] != '.' by {
            assert(s.drop_first()[j] == s[j + 1]);
        }
        lemma_first_dot_none(s.drop_first());
    }
}

/// The dot-separated pieces of `s`, in order; always at least one piece.
pub open spec fn split_dots(s: Seq<char>) -> Seq<Seq<char>>
    decreases s.len(),
    via split_dots_decreases
{
    let i = first_dot(s);
    if i < 0 {
        seq![s]
    } else {
        seq![s.take(i)] + split_dots(s.skip(i + 1))
    }
}

#[via_fn]
proof fn split_dots_decreases(s: Seq<char>) {
    lemma_first_dot(s);
}

/// Whether one version piece is readable: non-empty, all digits, and no
/// larger than a signed 32-bit integer.
pub open spec fn part_ok(p: Seq<char>) -> bool {
    p.len() > 0 && all_digits(p) && dec_val(p) <= 0x7fff_ffff
}

/// The packed form of three version numbers: ten bits for each part.
pub open spec fn packed_version(a: nat, b: nat, c: nat) -> int {
    a * 0x100000 + b * 0x400 + c as int
}

/// Whether every dot-separated piece of `s` is a readable number.
pub open spec fn version_parts_readable(s: Seq<char>) -> bool {
    forall|i: int| 0 <= i < split_dots(s).len() ==> part_ok(#[trigger] split_dots(s)[i])
}

/// Whether `s` is a well-formed version string: exactly three readable
/// pieces, each below 1024.
pub open spec fn version_ok(s: Seq<char>) -> bool {
    &&& split_dots(s).len() == 3
    &&& version_parts_readable(s)
    &&& forall|i: int| 0 <= i < split_dots(s).len() ==> dec_val(#[trigger] split_dots(s)[i])
        < 1024
}

/// The packed value of a well-formed version string.
pub open spec fn version_value(s: Seq<char>) -> int {
    packed_version(dec_val(split_dots(s)[0]), dec_val(split_dots(s)[1]), dec_val(split_dots(s)[2]))
}

/// The message naming why `s` is not a well-formed version string:
/// an unreadable piece is reported before a wrong piece count, and a
/// wrong count before an oversized piece.
pub open spec fn version_err_msg(s: Seq<char>) -> Seq<char> {
    if !version_parts_readable(s) {
        "Invalid version string format"@
    } else if split_dots(s).len() != 3 {
        "Received invalid version string"@
    } else {
        "Version string invalid, some parts are bigger than 1023"@
    }
}

/// Converts a `major.minor.patch` version string into one packed 32-bit
/// integer, ten bits per part. The string must split on dots into exactly
/// three readable numbers, each below 1024.
pub fn convert_version_to_int32(version: &str) -> (r: Result<i32, &'static str>)
    ensures
        r is Ok <==> version_ok(version@),
        r matches Ok(x) ==> x == version_value(version@),
        r matches Err(m) ==> m@ == version_err_msg(version@),
{
    let v = str_chars(version);
    let ghost s = version@;
    let ghost ps = split_dots(s);

    // Split the characters on dots, front to back.
    let mut parts: Vec<Vec<char>> = Vec::new();
    let mut start: usize = 0;
    let mut i: usize = 0;
    proof {
        assert(s.skip(0) =~= s);
        assert(parts.deep_view() + split_dots(s) =~= split_dots(s));
    }
    while i < v.len()
        invariant
            start <= i <= v.len(),
            v@ == s,
            ps == split_dots(s),
            parts.deep_view() + split_dots(s.skip(start as int)) == ps,
            forall|j: int| start <= j < i ==> s[j] != '.',
        decreases v.len() - i,
    {
        if v[i] == '.' {
            let part = vec_range(&v, start, i);
            let ghost done = parts.deep_view();
            proof {
                let t = s.skip(start as int);
                assert forall|j: int| 0 <= j < i - start implies t[j] != '.' by {
                    assert(t[j] == s[start + j]);
                }
                assert(t[i - start] == s[i as int]);
                lemma_first_dot_at(t, i - start);
                assert(t.take(i - start) =~= s.subrange(start as int, i as int));
                assert(t.skip(i - start + 1) =~= s.skip(i + 1));
                assert(split_dots(t) == seq![s.subrange(start as int, i as int)] + split_dots(
                    s.skip(i + 1),
                ));
            }
            parts.push(part);
            proof {
                assert(parts.deep_view() =~~= done.push(s.subrange(start as int, i as int)));
                assert(done.push(s.subrange(start as int, i as int)) + split_dots(s.skip(i + 1))
                    =~= done + (seq![s.subrange(start as int, i as int)] + split_dots(
                    s.skip(i + 1),
                )));
            }
            start = i + 1;
        }
        i += 1;
    }
    let last = vec_range(&v, start, v.len());
    let ghost done = parts.deep_view();
    proof {
        let t = s.skip(start as int);
        assert forall|j: int| 0 <= j < t.len() implies t[j] != '.' by {
            assert(t[j] == s[start + j]);
        }
        lemma_first_dot_none(t);
        assert(t =~= s.subrange(start as int, s.len() as int));
        assert(split_dots(t) == seq![t]);
    }
    parts.push(last);
    proof {
        assert(parts.deep_view() =~~= done.push(s.subrange(start as int, s.len() as int)));
        assert(done.push(s.subrange(start as int, s.len() as int)) =~= done + seq![
            s.subrange(start as int, s.len() as int),
        ]);
        assert(parts.deep_view() =~~= ps);
    }

    // Read each piece as a bounded decimal number.
    let mut vals: Vec<u64> = Vec::new();
    let mut k: usize = 0;
    while k < parts.len()
        invariant
            k <= parts@.len(),
            s == version@,
            ps == split_dots(s),
            parts.deep_view() == ps,
            vals@.len() == k,
            forall|j: int| 0 <= j < k ==> part_ok(#[trigger] ps[j]),
            forall|j: int| 0 <= j < k ==> vals@[j] == dec_val(ps[j]),
        decreases parts@.len() - k,
    {
        proof {
            assert(parts@[k as int].deep_view() =~= parts@[k as int]@);
            assert(parts@[k as int]@ == ps[k as int]);
        }
        let p = &parts[k];
        match parse_dec_bounded(p, 0, p.len(), 0x7fff_ffff) {
            Some(x) => {
                proof {
                    assert(p@.subrange(0, p@.len() as int) =~= p@);
                }
                vals.push(x);
            },
            None => {
                proof {
                    assert(p@.subrange(0, p@.len() as int) =~= p@);
                    assert(0 <= k < ps.len() && !part_ok(ps[k as int]));
                    assert(!version_parts_readable(s)) by {
                        assert(0 <= k < split_dots(s).len() && !part_ok(split_dots(s)[k as int]));
                    }
                }
                return Err("Invalid version string format");
            },
        }
        k += 1;
    }

    proof {
        assert(version_parts_readable(s));
    }
    if vals.len() != 3 {
        proof {
            assert(ps.len() != 3);
            assert(!version_ok(s));
        }
        return Err("Received invalid version string");
    }
    let a = vals[0];
    let b = vals[1];
    let c = vals[2];
    if a >= 1024 || b >= 1024 || c >= 1024 {
        proof {
            assert(dec_val(ps[0]) >= 1024 || dec_val(ps[1]) >= 1024 || dec_val(ps[2]) >= 1024);
            assert(!version_ok(s));
        }
        return Err("Version string invalid, some parts are bigger than 1023");
    }
    proof {
        assert(version_ok(s));
    }
    Ok((a * 0x100000 + b * 0x400 + c) as i32)
}

/// A JSON value of the serialization library, opaque to the logic here;
/// its contents are read out through the wrappers below.
#[verifier::external_type_specification]
#[verifier::external_body]
pub struct ExJsonValue(serde_json::Value);

/// Relies on matching `serde_json::Value`: hands out the elements of an
/// array value, and nothing when the value is any other kind of JSON
/// value. Which case applies depends on the opaque value, so nothing more
/// is promised of the result.
#[verifier::external_body]
fn value_elements(v: &serde_json::Value) -> (r: Option<Vec<serde_json::Value>>) {
    match v {
        serde_json::Value::Array(a) => Some(a.clone()),
        _ => None,
    }
}

/// Relies on matching `serde_json::Value`: hands out the characters of a
/// string value, and nothing when the value is any other kind of JSON
/// value.
#[verifier::external_body]
fn value_as_string(v: &serde_json::Value) -> (r: Option<String>) {
    match v {
        serde_json::Value::String(s) => Some(s.clone()),
        _ => None,
    }
}

/// Collects string elements read out of a JSON array: succeeds exactly
/// when every element was a string, and then keeps every string in order.
pub fn collect_strings(items: Vec<Option<String>>) -> (r: Result<Vec<String>, &'static str>)
    ensures
        r is Ok <==> (forall|i: int| 0 <= i < items@.len() ==> (#[trigger] items@[i]) is Some),
        r matches Ok(out) ==> out@.len() == items@.len() && (forall|i: int|
            0 <= i < items@.len() ==> ((#[trigger] items@[i]) matches Some(x) && out@[i]@ == x@)),
        r matches Err(m) ==> m@ == "Element is not a string"@,
{
    let mut out: Vec<String> = Vec::new();
    let mut i: usize = 0;
    while i < items.len()
        invariant
            i <= items@.len(),
            out@.len() == i,
            forall|j: int| 0 <= j < i ==> ((#[trigger] items@[j]) matches Some(x) && out@[j]@
                == x@),
        decreases items@.len() - i,
    {
        match &items[i] {
            Some(s) => {
                out.push(s.clone());
            },
            None => {
                return Err("Element is not a string");
            },
        }
        i += 1;
    }
    Ok(out)
}

/// Reads a JSON value that should be an array of strings into the plain
/// strings, in order. The two failure modes name whether the value was
/// not an array at all or one of its elements was not a string.
pub fn value_to_vec_string(value: &serde_json::Value) -> (r: Result<Vec<String>, &'static str>)
    ensures
        r matches Err(m) ==> m@ == "Value is not an array"@ || m@ == "Element is not a string"@,
{
    match value_elements(value) {
        None => Err("Value is not an array"),
        Some(elems) => {
            let mut opts: Vec<Option<String>> = Vec::new();
            let mut i: usize = 0;
            while i < elems.len()
                invariant
                    i <= elems@.len(),
                    opts@.len() == i,
                decreases elems@.len() - i,
            {
                opts.push(value_as_string(&elems[i]));
                i += 1;
            }
            collect_strings(opts)
        },
    }
}

/// Relies on `chrono::Local::now` and `timestamp_micros`: the current
/// local time as microseconds since the epoch. A clock reading differs
/// between calls, so nothing is promised of the value. `Local::now`
/// panics when the system clock is set before the Unix epoch.
#[verifier::external_body]
pub fn cur_timestamp() -> i64 {
    let now: chrono::DateTime<chrono::Local> = chrono::Local::now();
    now.timestamp_micros()
}

/// The characters `v[from..to]`, copied out in order.
fn vec_range(v: &Vec<char>, from: usize, to: usize) -> (r: Vec<char>)
    requires
        from <= to <= v@.len(),
    ensures
        r@ == v@.subrange(from as int, to as int),
{
    let mut r: Vec<char> = Vec::new();
    let mut i: usize = from;
    while i < to
        invariant
            from <= i <= to <= v@.len(),
            r@ == v@.subrange(from as int, i as int),
        decreases to - i,
    {
        r.push(v[i]);
        proof {
            assert(v@.subrange(from as int, i + 1) =~= v@.subrange(from as int, i as int).push(
                v@[i as int],
            ));
        }
        i += 1;
    }
    r
}

} // verus!
