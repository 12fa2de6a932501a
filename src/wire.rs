use vstd::prelude::*;

verus! {

/// The lower-case hexadecimal digit for `n` below 16.
pub open spec fn hex_digit(n: int) -> char {
    seq!['0', '1', '2', '3', '4', '5', '6', '7', '8', '9', 'a', 'b', 'c', 'd', 'e', 'f'][n]
}

/// How one character stands inside a JSON string: quote and backslash are
/// escaped, control characters get their short escape or `\u00XX`, and every
/// other character stands for itself.
pub open spec fn escaped_char(c: char) -> Seq<char> {
    let n = c as u32;
    if c == '"' {
        seq!['\\', '"']
    } else if c == '\\' {
        seq!['\\', '\\']
    } else if n == 0x8 {
        seq!['\\', 'b']
    } else if n == 0x9 {
        seq!['\\', 't']
    } else if n == 0xa {
        seq!['\\', 'n']
    } else if n == 0xc {
        seq!['\\', 'f']
    } else if n == 0xd {
        seq!['\\', 'r']
    } else if n < 0x20 {
        seq!['\\', 'u', '0', '0', hex_digit((n / 16) as int), hex_digit((n % 16) as int)]
    } else {
        seq![c]
    }
}

/// Each character of the text as it stands inside a JSON string.
pub open spec fn json_escaped(s: Seq<char>) -> Seq<char>
    decreases s.len(),
{
    if s.len() == 0 {
        Seq::empty()
    } else {
        escaped_char(s[0]) + json_escaped(s.drop_first())
    }
}

/// The JSON string literal for the text, quotes included.
pub open spec fn json_quoted(s: Seq<char>) -> Seq<char> {
    seq!['"'] + json_escaped(s) + seq!['"']
}

#[verifier::external_type_specification]
#[verifier::external_body]
pub struct ExJsonError(serde_json::Error);

/// Relies on `serde_json::to_string` on a string: its JSON string literal, with
/// quotes and escapes. A string is written into a `Vec`, which cannot fail.
#[verifier::external_body]
pub(crate) fn quote_json(s: &String) -> (r: Result<String, serde_json::Error>)
    ensures
        r is Ok,
        r matches Ok(t) ==> t@ == json_quoted(s@),
{
    serde_json::to_string(s)
}

/// The items separated by commas.
pub open spec fn comma_joined(items: Seq<Seq<char>>) -> Seq<char>
    decreases items.len(),
{
    if items.len() == 0 {
        Seq::empty()
    } else if items.len() == 1 {
        items[0]
    } else {
        comma_joined(items.drop_last()) + seq![','] + items.last()
    }
}

/// A JSON array whose elements are the given texts.
pub open spec fn array_text(items: Seq<Seq<char>>) -> Seq<char> {
    seq!['['] + comma_joined(items) + seq![']']
}

/// The JSON array of boxes, each an array of its coordinates' number texts.
pub open spec fn boxes_text(boxes: Seq<Seq<Seq<char>>>) -> Seq<char> {
    array_text(boxes.map_values(|b: Seq<Seq<char>>| array_text(b)))
}

/// The request object sent to the component.
pub open spec fn request_text(image_data: Seq<char>, boxes: Seq<Seq<Seq<char>>>) -> Seq<char> {
    "{\"image_data\":"@ + json_quoted(image_data) + ",\"boxes\":"@ + boxes_text(boxes) + "}"@
}

/// Writes the texts as a JSON array.
pub fn write_array(items: &Vec<String>) -> (r: String)
    ensures
        r@ == array_text(items@.map_values(|s: String| s@)),
{
    let ghost v = items@.map_values(|s: String| s@);
    let mut out = String::new();
    let mut i: usize = 0;
    while i < items.len()
        invariant
            i <= items@.len(),
            v == items@.map_values(|s: String| s@),
            out@ == comma_joined(v.take(i as int)),
        decreases items.len() - i,
    {
        proof {
            reveal_strlit(",");
            assert(v.take(i + 1).drop_last() =~= v.take(i as int));
            if i == 0 {
                assert(v.take(1)[0] == v[0]);
            }
        }
        if i > 0 {
            out.append(",");
        }
        out.append(items[i].as_str());
        i = i + 1;
    }
    assert(v.take(i as int) =~= v);
    let mut r = String::from_str("[");
    r.append(out.as_str());
    r.append("]");
    proof {
        reveal_strlit("[");
        reveal_strlit("]");
    }
    r
}

/// A coordinate's text: non-empty, without commas or brackets, as every JSON
/// number is.
pub open spec fn valid_coordinate(s: Seq<char>) -> bool {
    &&& s.len() > 0
    &&& forall|i: int| 0 <= i < s.len() ==> s[i] != ',' && s[i] != '[' && s[i] != ']'
}

pub open spec fn valid_boxes(boxes: Seq<Seq<Seq<char>>>) -> bool {
    forall|i: int, j: int|
        0 <= i < boxes.len() && 0 <= j < boxes[i].len() ==> valid_coordinate(#[trigger] boxes[i][j])
}

/// Checks a coordinate's text against `valid_coordinate`.
pub fn is_valid_coordinate(s: &str) -> (r: bool)
    ensures
        r == valid_coordinate(s@),
{
    let n = s.unicode_len();
    let mut i: usize = 0;
    while i < n
        invariant
            n == s@.len(),
            i <= n,
            forall|j: int| 0 <= j < i ==> s@[j] != ',' && s@[j] != '[' && s@[j] != ']',
        decreases n - i,
    {
        let c = s.get_char(i);
        if c == ',' || c == '[' || c == ']' {
            return false;
        }
        i = i + 1;
    }
    n > 0
}

/// Where two splittings of one text each end in a part that starts with `c`
/// and holds no other `c`, the parts are equal, and so are the rests.
proof fn lemma_split_at_last_mark(x1: Seq<char>, m1: Seq<char>, x2: Seq<char>, m2: Seq<char>, c: char)
    requires
        x1 + m1 == x2 + m2,
        m1.len() > 0 && m1[0] == c,
        m2.len() > 0 && m2[0] == c,
        forall|i: int| 0 < i < m1.len() ==> m1[i] != c,
        forall|i: int| 0 < i < m2.len() ==> m2[i] != c,
    ensures
        x1 == x2,
        m1 == m2,
{
    let t = x1 + m1;
    assert(t.len() == x1.len() + m1.len() && t.len() == x2.len() + m2.len());
    if m1.len() < m2.len() {
        assert(t[x1.len() as int] == m1[0]);
        assert((x2 + m2)[x1.len() as int] == m2[x1.len() - x2.len()]);
    } else if m2.len() < m1.len() {
        assert((x2 + m2)[x2.len() as int] == m2[0]);
        assert(t[x2.len() as int] == m1[x2.len() - x1.len()]);
    }
    assert(x1 =~= t.subrange(0, x1.len() as int));
    assert(x2 =~= (x2 + m2).subrange(0, x2.len() as int));
    assert(m1 =~= t.subrange(x1.len() as int, t.len() as int));
    assert(m2 =~= (x2 + m2).subrange(x2.len() as int, t.len() as int));
}

proof fn lemma_joined_coordinates_free(items: Seq<Seq<char>>)
    requires
        forall|i: int| 0 <= i < items.len() ==> valid_coordinate(#[trigger] items[i]),
    ensures
        forall|k: int| 0 <= k < comma_joined(items).len() ==> comma_joined(items)[k] != '[' && comma_joined(items)[k] != ']',
        items.len() > 0 ==> comma_joined(items).len() > 0,
        items.len() <= 1 <==> forall|k: int| 0 <= k < comma_joined(items).len() ==> comma_joined(items)[k] != ',',
    decreases items.len(),
{
    if items.len() > 1 {
        let x = comma_joined(items.drop_last());
        lemma_joined_coordinates_free(items.drop_last());
        let t = comma_joined(items);
        assert(t == x + seq![','] + items.last());
        assert(t[x.len() as int] == ',');
        assert forall|k: int| 0 <= k < t.len() implies t[k] != '[' && t[k] != ']' by {
            if k < x.len() {
                assert(t[k] == x[k]);
            } else if k > x.len() {
                assert(t[k] == items.last()[k - x.len() - 1]);
            }
        }
    } else if items.len() == 1 {
        assert(comma_joined(items) == items[0]);
    }
}

/// Coordinates are read back from their comma-joined text.
proof fn lemma_joined_coordinates_injective(a: Seq<Seq<char>>, b: Seq<Seq<char>>)
    requires
        forall|i: int| 0 <= i < a.len() ==> valid_coordinate(#[trigger] a[i]),
        forall|i: int| 0 <= i < b.len() ==> valid_coordinate(#[trigger] b[i]),
        comma_joined(a) == comma_joined(b),
    ensures
        a == b,
    decreases a.len() + b.len(),
{
    lemma_joined_coordinates_free(a);
    lemma_joined_coordinates_free(b);
    if a.len() == 0 || b.len() == 0 {
        assert(a.len() == 0 && b.len() == 0);
        assert(a =~= b);
    } else if a.len() == 1 || b.len() == 1 {
        assert(a.len() == 1 && b.len() == 1);
        assert(a =~= b);
    } else {
        let ma = seq![','] + a.last();
        let mb = seq![','] + b.last();
        assert(comma_joined(a) =~= comma_joined(a.drop_last()) + ma);
        assert(comma_joined(b) =~= comma_joined(b.drop_last()) + mb);
        assert forall|i: int| 0 < i < ma.len() implies ma[i] != ',' by {
            assert(ma[i] == a.last()[i - 1]);
        }
        assert forall|i: int| 0 < i < mb.len() implies mb[i] != ',' by {
            assert(mb[i] == b.last()[i - 1]);
        }
        lemma_split_at_last_mark(comma_joined(a.drop_last()), ma, comma_joined(b.drop_last()), mb, ',');
        assert(a.last() =~= ma.subrange(1, ma.len() as int));
        assert(b.last() =~= mb.subrange(1, mb.len() as int));
        lemma_joined_coordinates_injective(a.drop_last(), b.drop_last());
        assert(a =~= a.drop_last().push(a.last()));
        assert(b =~= b.drop_last().push(b.last()));
    }
}

proof fn lemma_row_shape(row: Seq<Seq<char>>)
    requires
        forall|i: int| 0 <= i < row.len() ==> valid_coordinate(#[trigger] row[i]),
    ensures
        array_text(row).len() >= 2,
        array_text(row)[0] == '[',
        forall|k: int| 0 < k < array_text(row).len() ==> array_text(row)[k] != '[',
{
    lemma_joined_coordinates_free(row);
    let t = array_text(row);
    let j = comma_joined(row);
    assert forall|k: int| 0 < k < t.len() implies t[k] != '[' by {
        if k <= j.len() {
            assert(t[k] == j[k - 1]);
        }
    }
}

proof fn lemma_array_text_injective(a: Seq<Seq<char>>, b: Seq<Seq<char>>)
    requires
        forall|i: int| 0 <= i < a.len() ==> valid_coordinate(#[trigger] a[i]),
        forall|i: int| 0 <= i < b.len() ==> valid_coordinate(#[trigger] b[i]),
        array_text(a) == array_text(b),
    ensures
        a == b,
{
    let ja = comma_joined(a);
    let jb = comma_joined(b);
    assert(ja =~= array_text(a).subrange(1, array_text(a).len() - 1));
    assert(jb =~= array_text(b).subrange(1, array_text(b).len() - 1));
    lemma_joined_coordinates_injective(a, b);
}

/// Rows are read back from the comma-joined texts of their arrays.
proof fn lemma_joined_rows_injective(a: Seq<Seq<Seq<char>>>, b: Seq<Seq<Seq<char>>>)
    requires
        valid_boxes(a),
        valid_boxes(b),
        comma_joined(a.map_values(|r: Seq<Seq<char>>| array_text(r))) == comma_joined(
            b.map_values(|r: Seq<Seq<char>>| array_text(r)),
        ),
    ensures
        a == b,
    decreases a.len() + b.len(),
{
    let ta = a.map_values(|r: Seq<Seq<char>>| array_text(r));
    let tb = b.map_values(|r: Seq<Seq<char>>| array_text(r));
    assert forall|i: int| 0 <= i < a.len() implies {
        &&& (#[trigger] ta[i]).len() >= 2
        &&& ta[i][0] == '['
        &&& forall|k: int| 0 < k < ta[i].len() ==> ta[i][k] != '['
    } by {
        assert forall|j: int| 0 <= j < a[i].len() implies valid_coordinate(#[trigger] a[i][j]) by {}
        lemma_row_shape(a[i]);
    }
    assert forall|i: int| 0 <= i < b.len() implies {
        &&& (#[trigger] tb[i]).len() >= 2
        &&& tb[i][0] == '['
        &&& forall|k: int| 0 < k < tb[i].len() ==> tb[i][k] != '['
    } by {
        assert forall|j: int| 0 <= j < b[i].len() implies valid_coordinate(#[trigger] b[i][j]) by {}
        lemma_row_shape(b[i]);
    }
    if a.len() == 0 || b.len() == 0 {
        if a.len() > 0 {
            assert(comma_joined(ta).len() > 0) by {
                if ta.len() > 1 {
                    assert(comma_joined(ta).len() >= ta.last().len());
                }
            }
        }
        if b.len() > 0 {
            assert(comma_joined(tb).len() > 0) by {
                if tb.len() > 1 {
                    assert(comma_joined(tb).len() >= tb.last().len());
                }
            }
        }
        assert(a =~= b);
    } else {
        let xa = if a.len() == 1 { Seq::<char>::empty() } else { comma_joined(ta.drop_last()) + seq![','] };
        let xb = if b.len() == 1 { Seq::<char>::empty() } else { comma_joined(tb.drop_last()) + seq![','] };
        assert(comma_joined(ta) =~= xa + ta.last());
        assert(comma_joined(tb) =~= xb + tb.last());
        lemma_split_at_last_mark(xa, ta.last(), xb, tb.last(), '[');
        assert(ta.drop_last() =~= a.drop_last().map_values(|r: Seq<Seq<char>>| array_text(r)));
        assert(tb.drop_last() =~= b.drop_last().map_values(|r: Seq<Seq<char>>| array_text(r)));
        assert forall|j: int| 0 <= j < a.last().len() implies valid_coordinate(#[trigger] a.last()[j]) by {
            assert(a.last() == a[a.len() - 1]);
        }
        assert forall|j: int| 0 <= j < b.last().len() implies valid_coordinate(#[trigger] b.last()[j]) by {
            assert(b.last() == b[b.len() - 1]);
        }
        lemma_array_text_injective(a.last(), b.last());
        if a.len() == 1 || b.len() == 1 {
            assert(a.len() == 1 && b.len() == 1);
            assert(a =~= b);
        } else {
            assert(comma_joined(ta.drop_last()) =~= xa.drop_last());
            assert(comma_joined(tb.drop_last()) =~= xb.drop_last());
            assert(valid_boxes(a.drop_last()));
            assert(valid_boxes(b.drop_last()));
            lemma_joined_rows_injective(a.drop_last(), b.drop_last());
            assert(a =~= a.drop_last().push(a.last()));
            assert(b =~= b.drop_last().push(b.last()));
        }
    }
}

/// The boxes' wire text determines the boxes: two lists of boxes whose
/// coordinates are valid and whose texts agree are equal, box for box and
/// coordinate for coordinate.
pub proof fn lemma_boxes_text_injective(a: Seq<Seq<Seq<char>>>, b: Seq<Seq<Seq<char>>>)
    requires
        valid_boxes(a),
        valid_boxes(b),
        boxes_text(a) == boxes_text(b),
    ensures
        a == b,
{
    let ta = a.map_values(|r: Seq<Seq<char>>| array_text(r));
    let tb = b.map_values(|r: Seq<Seq<char>>| array_text(r));
    assert(comma_joined(ta) =~= boxes_text(a).subrange(1, boxes_text(a).len() - 1));
    assert(comma_joined(tb) =~= boxes_text(b).subrange(1, boxes_text(b).len() - 1));
    lemma_joined_rows_injective(a, b);
}

/// Requests with the same image data are told apart by their wire text: where
/// the coordinates are valid, the boxes come back from it unchanged.
pub proof fn lemma_request_text_keeps_boxes(
    image_data: Seq<char>,
    a: Seq<Seq<Seq<char>>>,
    b: Seq<Seq<Seq<char>>>,
)
    requires
        valid_boxes(a),
        valid_boxes(b),
        request_text(image_data, a) == request_text(image_data, b),
    ensures
        a == b,
{
    reveal_strlit("}");
    let head = "{\"image_data\":"@ + json_quoted(image_data) + ",\"boxes\":"@;
    let ta = request_text(image_data, a);
    let tb = request_text(image_data, b);
    assert(ta =~= head + boxes_text(a) + "}"@);
    assert(tb =~= head + boxes_text(b) + "}"@);
    assert(boxes_text(a) =~= ta.subrange(head.len() as int, ta.len() - 1));
    assert(boxes_text(b) =~= tb.subrange(head.len() as int, tb.len() - 1));
    lemma_boxes_text_injective(a, b);
}

proof fn lemma_hex_digit_injective(a: int, b: int)
    requires
        0 <= a < 16,
        0 <= b < 16,
        hex_digit(a) == hex_digit(b),
    ensures
        a == b,
{
}

/// No escape starts with a quote, and only escapes start with a backslash.
proof fn lemma_escaped_char_head(c: char)
    ensures
        escaped_char(c).len() > 0,
        escaped_char(c)[0] != '"',
        escaped_char(c)[0] == '\\' <==> escaped_char(c).len() > 1,
        escaped_char(c).len() == 1 ==> escaped_char(c)[0] == c,
{
}

/// One escape is never a proper start of another: where texts begin with the
/// escapes of two characters, the characters are equal and so are the rests.
proof fn lemma_escaped_char_prefix(a: char, b: char, x: Seq<char>, y: Seq<char>)
    requires
        escaped_char(a) + x == escaped_char(b) + y,
    ensures
        a == b,
        x == y,
{
    let ea = escaped_char(a);
    let eb = escaped_char(b);
    lemma_escaped_char_head(a);
    lemma_escaped_char_head(b);
    assert((ea + x)[0] == ea[0]);
    assert((eb + y)[0] == eb[0]);
    if ea.len() > 1 {
        assert((ea + x)[1] == ea[1]);
        assert((eb + y)[1] == eb[1]);
        let n = a as u32;
        let m = b as u32;
        if ea[1] == 'u' {
            assert(eb[1] == 'u');
            assert((ea + x)[4] == ea[4]);
            assert((eb + y)[4] == eb[4]);
            assert((ea + x)[5] == ea[5]);
            assert((eb + y)[5] == eb[5]);
            lemma_hex_digit_injective((n / 16) as int, (m / 16) as int);
            lemma_hex_digit_injective((n % 16) as int, (m % 16) as int);
            assert(n == m);
        }
    }
    assert(a == b);
    assert(x =~= (ea + x).subrange(ea.len() as int, (ea + x).len() as int));
    assert(y =~= (eb + y).subrange(eb.len() as int, (eb + y).len() as int));
}

/// Escaped texts each followed by a closing quote are equal only where the
/// texts are, and so are the rests.
proof fn lemma_escaped_prefix(a: Seq<char>, b: Seq<char>, x: Seq<char>, y: Seq<char>)
    requires
        json_escaped(a) + x == json_escaped(b) + y,
        x.len() > 0 && x[0] == '"',
        y.len() > 0 && y[0] == '"',
    ensures
        a == b,
        x == y,
    decreases a.len() + b.len(),
{
    if a.len() == 0 && b.len() == 0 {
        assert(x =~= json_escaped(a) + x);
        assert(y =~= json_escaped(b) + y);
    } else if a.len() == 0 {
        lemma_escaped_char_head(b[0]);
        assert(json_escaped(a) + x =~= x);
        assert((json_escaped(b) + y)[0] == escaped_char(b[0])[0]);
    } else if b.len() == 0 {
        lemma_escaped_char_head(a[0]);
        assert(json_escaped(b) + y =~= y);
        assert((json_escaped(a) + x)[0] == escaped_char(a[0])[0]);
    } else {
        let ra = json_escaped(a.drop_first()) + x;
        let rb = json_escaped(b.drop_first()) + y;
        assert(json_escaped(a) + x =~= escaped_char(a[0]) + ra);
        assert(json_escaped(b) + y =~= escaped_char(b[0]) + rb);
        lemma_escaped_char_prefix(a[0], b[0], ra, rb);
        lemma_escaped_prefix(a.drop_first(), b.drop_first(), x, y);
        assert(a =~= seq![a[0]] + a.drop_first());
        assert(b =~= seq![b[0]] + b.drop_first());
    }
}

/// The request's wire text determines the request: where the coordinates are
/// valid, the image data and the boxes both come back from it unchanged.
pub proof fn lemma_request_text_injective(
    s1: Seq<char>,
    b1: Seq<Seq<Seq<char>>>,
    s2: Seq<char>,
    b2: Seq<Seq<Seq<char>>>,
)
    requires
        valid_boxes(b1),
        valid_boxes(b2),
        request_text(s1, b1) == request_text(s2, b2),
    ensures
        s1 == s2,
        b1 == b2,
{
    reveal_strlit("{\"image_data\":");
    reveal_strlit(",\"boxes\":");
    let open = "{\"image_data\":"@ + seq!['"'];
    let x1 = seq!['"'] + ",\"boxes\":"@ + boxes_text(b1) + "}"@;
    let x2 = seq!['"'] + ",\"boxes\":"@ + boxes_text(b2) + "}"@;
    let t1 = request_text(s1, b1);
    let t2 = request_text(s2, b2);
    assert(t1 =~= open + (json_escaped(s1) + x1));
    assert(t2 =~= open + (json_escaped(s2) + x2));
    assert(json_escaped(s1) + x1 =~= t1.subrange(open.len() as int, t1.len() as int));
    assert(json_escaped(s2) + x2 =~= t2.subrange(open.len() as int, t2.len() as int));
    lemma_escaped_prefix(s1, s2, x1, x2);
    lemma_request_text_keeps_boxes(s1, b1, b2);
}

} // verus!
