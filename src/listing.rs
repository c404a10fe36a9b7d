//! The file listing: a fixed order for the server's entries, and the
//! client's text rendering of them.
use vstd::prelude::*;
use vstd::string::*;
use crate::frame::FileListEntry;

verus! {

/// The width of the name column in a rendered listing.
pub const NAME_COLUMN: usize = 10;

/// Lexicographic order on names, by code point.
pub open spec fn name_le(a: Seq<char>, b: Seq<char>) -> bool
    decreases a.len(),
{
    if a.len() == 0 {
        true
    } else if b.len() == 0 {
        false
    } else if (a[0] as u32) < (b[0] as u32) {
        true
    } else if (b[0] as u32) < (a[0] as u32) {
        false
    } else {
        name_le(a.skip(1), b.skip(1))
    }
}

/// Entries in ascending order of name.
pub open spec fn is_ordered(s: Seq<FileListEntry>) -> bool {
    forall|i: int, j: int| 0 <= i < j < s.len() ==> name_le(#[trigger] s[i].name@, #[trigger] s[j].name@)
}

/// Any two names are ordered one way or the other.
pub proof fn lemma_name_le_total(a: Seq<char>, b: Seq<char>)
    ensures
        name_le(a, b) || name_le(b, a),
    decreases a.len(),
{
    if a.len() > 0 && b.len() > 0 && a[0] as u32 == b[0] as u32 {
        lemma_name_le_total(a.skip(1), b.skip(1));
    }
}

/// The order on names is transitive.
pub proof fn lemma_name_le_transitive(a: Seq<char>, b: Seq<char>, c: Seq<char>)
    requires
        name_le(a, b),
        name_le(b, c),
    ensures
        name_le(a, c),
    decreases a.len(),
{
    if a.len() > 0 && b.len() > 0 && c.len() > 0 && a[0] as u32 == b[0] as u32 && b[0] as u32 == c[0] as u32 {
        lemma_name_le_transitive(a.skip(1), b.skip(1), c.skip(1));
    }
}

/// Compares two names in the listing's order.
pub fn names_in_order(a: &str, b: &str) -> (r: bool)
    ensures
        r == name_le(a@, b@),
{
    let na = a.unicode_len();
    let nb = b.unicode_len();
    let mut i: usize = 0;
    assert(a@.skip(0) =~= a@ && b@.skip(0) =~= b@);
    while i < na && i < nb
        invariant
            na == a@.len(),
            nb == b@.len(),
            i <= na,
            i <= nb,
            name_le(a@, b@) == name_le(a@.skip(i as int), b@.skip(i as int)),
        decreases na - i,
    {
        let ca = a.get_char(i);
        let cb = b.get_char(i);
        assert(a@.skip(i as int)[0] == ca && b@.skip(i as int)[0] == cb);
        if (ca as u32) < (cb as u32) {
            return true;
        }
        if (cb as u32) < (ca as u32) {
            return false;
        }
        assert(a@.skip(i as int).skip(1) =~= a@.skip(i + 1));
        assert(b@.skip(i as int).skip(1) =~= b@.skip(i + 1));
        i = i + 1;
    }
    i == na
}

proof fn lemma_insert_multiset(s: Seq<FileListEntry>, i: int, x: FileListEntry)
    requires
        0 <= i <= s.len(),
    ensures
        s.insert(i, x).to_multiset() =~= s.to_multiset().insert(x),
{
    broadcast use vstd::seq_lib::group_to_multiset_ensures;

    let t = s.insert(i, x);
    assert(t.remove(i) =~= s);
    assert(t[i] == x);
    assert(t.contains(x));
}

/// The entries in ascending order of name, so that one directory state
/// always lists the same way.
pub fn order_listing(entries: Vec<FileListEntry>) -> (r: Vec<FileListEntry>)
    ensures
        is_ordered(r@),
        r@.to_multiset() =~= entries@.to_multiset(),
{
    broadcast use vstd::seq_lib::group_to_multiset_ensures;

    let mut input = entries;
    let mut out: Vec<FileListEntry> = Vec::new();
    while input.len() > 0
        invariant
            is_ordered(out@),
            out@.to_multiset().add(input@.to_multiset()) =~= entries@.to_multiset(),
        decreases input@.len(),
    {
        let ghost before_in = input@;
        let x = input.pop().unwrap();
        assert(before_in =~= input@.push(x));
        let mut p: usize = 0;
        while p < out.len() && names_in_order(out[p].name.as_str(), x.name.as_str())
            invariant
                p <= out@.len(),
                forall|k: int| 0 <= k < p ==> name_le(#[trigger] out@[k].name@, x.name@),
            decreases out@.len() - p,
        {
            p = p + 1;
        }
        proof {
            lemma_insert_multiset(out@, p as int, x);
            if p < out@.len() {
                lemma_name_le_total(out@[p as int].name@, x.name@);
                assert forall|j: int| p <= j < out@.len() implies name_le(x.name@, #[trigger] out@[j].name@) by {
                    if j > p {
                        lemma_name_le_transitive(x.name@, out@[p as int].name@, out@[j].name@);
                    }
                }
            }
        }
        let ghost old_out = out@;
        out.insert(p, x);
        proof {
            input@.to_multiset_ensures();
            assert(before_in.to_multiset() =~= input@.to_multiset().insert(x));
            assert(out@.to_multiset() =~= old_out.to_multiset().insert(x));
            old_out.insert_ensures(p as int, x);
            assert forall|i: int, j: int| 0 <= i < j < out@.len() implies name_le(
                #[trigger] out@[i].name@,
                #[trigger] out@[j].name@,
            ) by {
                if i < p && j > p {
                    lemma_name_le_transitive(out@[i].name@, x.name@, out@[j].name@);
                }
                if i < p && j < p {
                    assert(out@[i] == old_out[i] && out@[j] == old_out[j]);
                }
                if i > p {
                    assert(out@[i] == old_out[i - 1] && out@[j] == old_out[j - 1]);
                }
                if i == p && j > p {
                    assert(out@[j] == old_out[j - 1]);
                }
                if i < p && j == p {
                    assert(out@[i] == old_out[i]);
                }
            }
        }
    }
    assert(input@ =~= Seq::<FileListEntry>::empty());
    out
}

/// The decimal digit `d` as a character.
pub open spec fn digit_char(d: nat) -> char {
    ((48 + d) as u8) as char
}

/// The decimal digits of `n`, most significant first, without leading zeros.
pub open spec fn decimal(n: nat) -> Seq<char>
    decreases n,
{
    if n < 10 {
        seq![digit_char(n)]
    } else {
        decimal(n / 10).push(digit_char(n % 10))
    }
}

/// How a size is shown: its byte count followed by `B`.
pub open spec fn size_text(n: nat) -> Seq<char> {
    decimal(n).push('B')
}

/// `s` followed by as many spaces as bring it to `width` characters.
pub open spec fn pad_right(s: Seq<char>, width: nat) -> Seq<char> {
    if s.len() >= width {
        s
    } else {
        s + Seq::new((width - s.len()) as nat, |_i: int| ' ')
    }
}

/// One line of the listing: the name column, a space, then the size column.
pub open spec fn row_text(left: Seq<char>, right: Seq<char>) -> Seq<char> {
    pad_right(left, NAME_COLUMN as nat).push(' ') + right
}

/// Relies on String::push: the character is appended at the end.
#[verifier::external_body]
fn push_char(s: &mut String, c: char)
    ensures
        final(s)@ == old(s)@.push(c),
{
    s.push(c)
}

fn push_decimal(s: &mut String, n: u64)
    ensures
        final(s)@ == old(s)@ + decimal(n as nat),
    decreases n,
{
    if n >= 10 {
        push_decimal(s, n / 10);
    }
    let d = (n % 10) as u8;
    push_char(s, (48u8 + d) as char);
    assert(old(s)@ + decimal(n as nat) =~= (if n >= 10 { old(s)@ + decimal((n / 10) as nat) } else { old(s)@ }).push(digit_char((n % 10) as nat)));
}

/// The size of a file as the listing shows it, such as `5B`.
pub fn render_size(n: u64) -> (r: String)
    ensures
        r@ == size_text(n as nat),
{
    let mut s = String::new();
    push_decimal(&mut s, n);
    push_char(&mut s, 'B');
    assert(s@ =~= size_text(n as nat));
    s
}

/// One line of the listing from its two columns.
pub fn render_row(left: &str, right: &str) -> (r: String)
    ensures
        r@ == row_text(left@, right@),
{
    let mut s = String::new();
    s.append(left);
    let n = left.unicode_len();
    let mut k: usize = n;
    while k < NAME_COLUMN
        invariant
            n == left@.len(),
            n <= k <= NAME_COLUMN || (k == n && n > NAME_COLUMN),
            s@ == left@ + Seq::new((k - n) as nat, |_i: int| ' '),
        decreases NAME_COLUMN - k,
    {
        push_char(&mut s, ' ');
        assert(left@ + Seq::new((k + 1 - n) as nat, |_i: int| ' ') =~= (left@ + Seq::new((k - n) as nat, |_i: int| ' ')).push(' '));
        k = k + 1;
    }
    assert(s@ =~= pad_right(left@, NAME_COLUMN as nat));
    push_char(&mut s, ' ');
    s.append(right);
    s
}

/// The line that shows one entry.
pub fn render_entry(entry: &FileListEntry) -> (r: String)
    ensures
        r@ == row_text(entry.name@, size_text(entry.size_bytes as nat)),
{
    let size = render_size(entry.size_bytes);
    render_row(entry.name.as_str(), size.as_str())
}

/// The listing as the client shows it: a header line, then one line per
/// entry in the order received.
pub fn render_listing(entries: &Vec<FileListEntry>) -> (r: Vec<String>)
    ensures
        r@.len() == entries@.len() + 1,
        r@[0]@ == row_text(seq!['F', 'i', 'l', 'e', ' ', 'n', 'a', 'm', 'e'], seq!['S', 'i', 'z', 'e']),
        forall|i: int|
            0 <= i < entries@.len() ==> (#[trigger] r@[i + 1])@ == row_text(
                entries@[i].name@,
                size_text(entries@[i].size_bytes as nat),
            ),
{
    let mut lines: Vec<String> = Vec::new();
    proof {
        reveal_strlit("File name");
        reveal_strlit("Size");
    }
    lines.push(render_row("File name", "Size"));
    let mut i: usize = 0;
    while i < entries.len()
        invariant
            i <= entries@.len(),
            lines@.len() == i + 1,
            lines@[0]@ == row_text(seq!['F', 'i', 'l', 'e', ' ', 'n', 'a', 'm', 'e'], seq!['S', 'i', 'z', 'e']),
            forall|j: int|
                0 <= j < i ==> (#[trigger] lines@[j + 1])@ == row_text(
                    entries@[j].name@,
                    size_text(entries@[j].size_bytes as nat),
                ),
        decreases entries@.len() - i,
    {
        let line = render_entry(&entries[i]);
        lines.push(line);
        i = i + 1;
    }
    lines
}

} // verus!
