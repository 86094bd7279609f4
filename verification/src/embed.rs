//! Built-in query embedding: which model's vector is used, and the lookup table
//! of the distilled model.
//!
//! The distilled model is a table with one row per token, whose file holds the
//! components as half-precision bit patterns. The vectors of texts are lists of
//! single-precision bit patterns.
use crate::le::{read_u64, u64_at};
use crate::text::own;
use vstd::prelude::*;
use vstd::slice::*;
use vstd::string::*;

verus! {

/// The component is zero, of either sign.
pub open spec fn is_zero(bits: u32) -> bool {
    bits == 0 || bits == 0x8000_0000
}

/// The vector has a component that is not zero. A model that has nothing to say
/// of a text gives a vector without one.
pub open spec fn says_something(v: Seq<u32>) -> bool {
    exists|i: int| 0 <= i < v.len() && !is_zero(#[trigger] v[i])
}

/// Whether a model's vector is of any use.
pub fn usable(v: &Vec<u32>) -> (r: bool)
    ensures
        r == says_something(v@),
{
    let mut i: usize = 0;
    while i < v.len()
        invariant
            i <= v@.len(),
            forall|k: int| 0 <= k < i ==> is_zero(#[trigger] v@[k]),
        decreases v.len() - i,
    {
        if v[i] != 0 && v[i] != 0x8000_0000 {
            proof {
                assert(!is_zero(v@[i as int]));
            }
            return true;
        }
        i = i + 1;
    }
    false
}

/// What an optional vector holds.
pub open spec fn given(o: Option<Vec<u32>>) -> Option<Seq<u32>> {
    match o {
        Some(v) => Some(v@),
        None => None,
    }
}

/// The vector of a text: that of the full model if it is of use, else that of
/// the distilled model if it is of use.
pub fn choose_embedding(bge: Option<Vec<u32>>, distilled: Option<Vec<u32>>) -> (r: Result<
    Vec<u32>,
    String,
>)
    ensures
        match r {
            Ok(v) => if bge is Some && says_something(bge->0@) {
                v@ == bge->0@
            } else {
                distilled is Some && says_something(distilled->0@) && v@ == distilled->0@
            },
            Err(e) => {
                &&& bge is None || !says_something(bge->0@)
                &&& distilled is None || !says_something(distilled->0@)
                &&& e@
                    == "No embedding model available. Download BGE-small or create a distilled model."@
            },
        },
{
    if let Some(v) = bge {
        if usable(&v) {
            return Ok(v);
        }
    }
    if let Some(v) = distilled {
        if usable(&v) {
            return Ok(v);
        }
    }
    Err(own("No embedding model available. Download BGE-small or create a distilled model."))
}

// ── The distilled model ─────────────────────────────────────────────────

/// A tensor: its shape and its bytes.
pub open spec fn tensor_view(o: Option<(Vec<usize>, Vec<u8>)>) -> Option<(Seq<usize>, Seq<u8>)> {
    match o {
        Some(t) => Some((t.0@, t.1@)),
        None => None,
    }
}

/// Where a reader of JSON stands: inside a text or not, right behind a backslash
/// or not, and the number that the digits right before it make, 0 if there are none.
pub struct JsonScan {
    pub in_text: bool,
    pub escaped: bool,
    pub number: nat,
}

/// The byte is a decimal digit.
pub open spec fn is_digit(b: u8) -> bool {
    0x30 <= b <= 0x39
}

/// Where a reader stands after some bytes of JSON.
pub open spec fn scanned(b: Seq<u8>) -> JsonScan
    decreases b.len(),
{
    if b.len() == 0 {
        JsonScan { in_text: false, escaped: false, number: 0 }
    } else {
        let before = scanned(b.drop_last());
        let c = b.last();
        if before.in_text {
            JsonScan {
                in_text: before.escaped || c != 0x22,
                escaped: !before.escaped && c == 0x5c,
                number: 0,
            }
        } else {
            JsonScan {
                in_text: c == 0x22,
                escaped: false,
                number: if is_digit(c) {
                    10 * before.number + (c - 0x30) as nat
                } else {
                    0
                },
            }
        }
    }
}

/// No run of digits outside the texts of a JSON document is a larger number.
pub open spec fn numbers_within(b: Seq<u8>, limit: int) -> bool {
    forall|k: int| 0 <= k <= b.len() ==> (#[trigger] scanned(b.subrange(0, k))).number <= limit
}

/// The numbers in the header of a safetensors file leave room for its length and
/// the 8 bytes that hold it: their sums fit a machine word. A file that breaks off
/// before the end of its header has none to look at.
pub open spec fn header_in_bounds(file: Seq<u8>) -> bool {
    file.len() >= 8 && 8 + u64_at(file, 0) <= file.len() ==> numbers_within(
        file.subrange(8, 8 + u64_at(file, 0) as int),
        usize::MAX - 8 - u64_at(file, 0),
    )
}

/// Whether no number outside the texts of a JSON document is larger.
fn numbers_are_within(b: &[u8], limit: usize) -> (r: bool)
    ensures
        r == numbers_within(b@, limit as int),
{
    let mut in_text = false;
    let mut escaped = false;
    let mut number: usize = 0;
    let mut i: usize = 0;
    proof {
        assert(b@.subrange(0, 0) =~= Seq::empty());
    }
    while i < b.len()
        invariant
            i <= b@.len(),
            scanned(b@.subrange(0, i as int)) == (JsonScan {
                in_text,
                escaped,
                number: number as nat,
            }),
            forall|k: int|
                0 <= k <= i ==> (#[trigger] scanned(b@.subrange(0, k))).number <= limit,
        decreases b.len() - i,
    {
        let c: u8 = b[i];
        proof {
            let longer = b@.subrange(0, i + 1);
            assert(longer.drop_last() =~= b@.subrange(0, i as int));
            assert(longer.last() == c);
        }
        if in_text {
            in_text = escaped || c != 0x22;
            escaped = !escaped && c == 0x5c;
            number = 0;
        } else {
            in_text = c == 0x22;
            if 0x30 <= c && c <= 0x39 {
                let digit: usize = (c - 0x30) as usize;
                if limit < digit || number > (limit - digit) / 10 {
                    proof {
                        assert(scanned(b@.subrange(0, i + 1)).number > limit);
                    }
                    return false;
                }
                number = 10 * number + digit;
            } else {
                number = 0;
            }
        }
        i = i + 1;
    }
    true
}

/// Whether the numbers in the header of a safetensors file are in bounds.
fn header_is_in_bounds(file: &Vec<u8>) -> (r: bool)
    ensures
        r == header_in_bounds(file@),
{
    let size: usize = file.len();
    if size < 8 {
        return true;
    }
    let n: u64 = read_u64(file.as_slice(), 0);
    if n > (size - 8) as u64 {
        return true;
    }
    let len: usize = n as usize;
    numbers_are_within(slice_subrange(file.as_slice(), 8, 8 + len), usize::MAX - 8 - len)
}

/// The tensor of a name in a safetensors file; nothing if the file is malformed
/// or has none of that name.
pub uninterp spec fn tensor_in(file: Seq<u8>, name: Seq<char>) -> Option<(Seq<usize>, Seq<u8>)>;

/// Reads a tensor out of a file, by `safetensors::SafeTensors::deserialize` and
/// `tensor`. The result is named, and depends on the file and the name alone. The
/// end of the data that the header gives is added to the length of the header
/// without a check, so the numbers in the header must leave room for that.
#[verifier::external_body]
pub(crate) fn read_tensor(file: &Vec<u8>, name: &str) -> (r: Option<(Vec<usize>, Vec<u8>)>)
    requires
        header_in_bounds(file@),
    ensures
        tensor_view(r) == tensor_in(file@, name@),
{
    let tensors = safetensors::SafeTensors::deserialize(file).ok()?;
    let tensor = tensors.tensor(name).ok()?;
    Some((tensor.shape().to_vec(), tensor.data().to_vec()))
}

/// The half-precision number at a position of a table.
pub open spec fn half_at(data: Seq<u8>, i: int) -> u16 {
    (data[2 * i] + 256 * data[2 * i + 1]) as u16
}

/// The row of a token: so many components.
pub open spec fn row_of(data: Seq<u8>, dims: int, row: int) -> Seq<u16> {
    Seq::new(dims as nat, |j: int| half_at(data, row * dims + j))
}

/// The rows of a table.
pub fn token_rows(vocab_size: usize, dims: usize, data: &Vec<u8>) -> (r: Vec<Vec<u16>>)
    requires
        2 * (vocab_size * dims) <= data@.len(),
    ensures
        r@.len() == vocab_size,
        forall|i: int|
            0 <= i < vocab_size ==> (#[trigger] r@[i])@ == row_of(
                data@,
                dims as int,
                i,
            ),
{
    let size: usize = data.len();
    let mut rows: Vec<Vec<u16>> = Vec::new();
    let mut i: usize = 0;
    let mut start: usize = 0;
    while i < vocab_size
        invariant
            i <= vocab_size,
            size == data@.len(),
            2 * (vocab_size * dims) <= size,
            start == i * dims,
            rows@.len() == i,
            forall|k: int|
                0 <= k < i ==> (#[trigger] rows@[k])@ == row_of(
                    data@,
                    dims as int,
                    k,
                ),
        decreases vocab_size - i,
    {
        proof {
            assert(i * dims + dims == (i + 1) * dims) by (nonlinear_arith);
            assert((i + 1) * dims <= vocab_size * dims) by (nonlinear_arith)
                requires
                    i + 1 <= vocab_size,
                    0 <= dims,
            ;
        }
        let mut row: Vec<u16> = Vec::new();
        let mut j: usize = 0;
        while j < dims
            invariant
                j <= dims,
                size == data@.len(),
                start == i * dims,
                2 * (start + dims) <= size,
                row@.len() == j,
                forall|k: int|
                    0 <= k < j ==> #[trigger] row@[k] == half_at(data@, start + k),
            decreases dims - j,
        {
            let at: usize = 2 * (start + j);
            let bits: u16 = (data[at] as u16) + 256 * (data[at + 1] as u16);
            row.push(bits);
            j = j + 1;
        }
        proof {
            assert(row@ =~= row_of(data@, dims as int, i as int));
        }
        rows.push(row);
        start = start + dims;
        i = i + 1;
    }
    rows
}

/// The table is large enough for its shape.
pub open spec fn table_fits(t: (Seq<usize>, Seq<u8>)) -> bool {
    t.0.len() >= 2 && 2 * (t.0[0] * t.0[1]) <= t.1.len()
}

/// The lookup table of the distilled model.
#[derive(Debug)]
pub struct TokenTable {
    pub rows: Vec<Vec<u16>>,
    pub dims: usize,
}

/// Loads the lookup table of the distilled model from the bytes of its file: the
/// tensor `embeddings`, one row per token. Nothing comes of a file without that
/// tensor, of one whose tensor is too small for its shape, or of one whose header
/// has a number that no file is long enough for.
pub fn load_table(file: &Vec<u8>) -> (r: Option<TokenTable>)
    ensures
        r is Some <==> header_in_bounds(file@) && tensor_in(file@, "embeddings"@) is Some
            && table_fits(tensor_in(file@, "embeddings"@)->0),
        r matches Some(t) ==> {
            let (shape, data) = tensor_in(file@, "embeddings"@)->0;
            &&& t.dims == shape[1]
            &&& t.rows@.len() == shape[0]
            &&& forall|i: int|
                0 <= i < shape[0] ==> (#[trigger] t.rows@[i])@ == row_of(
                    data,
                    shape[1] as int,
                    i,
                )
        },
{
    if !header_is_in_bounds(file) {
        return None;
    }
    let (shape, data) = match read_tensor(file, "embeddings") {
        Some(t) => t,
        None => {
            return None;
        },
    };
    if shape.len() < 2 {
        return None;
    }
    let vocab_size: usize = shape[0];
    let dims: usize = shape[1];
    let size: usize = data.len();
    let fits = match vocab_size.checked_mul(dims) {
        Some(n) => n <= size / 2,
        None => false,
    };
    if !fits {
        return None;
    }
    Some(TokenTable { rows: token_rows(vocab_size, dims, &data), dims })
}

/// The token has a row.
pub open spec fn has_row(rows: nat) -> spec_fn(u32) -> bool {
    |t: u32| t < rows
}

impl TokenTable {
    /// The tokens of a text that the table has a row for: their rows are averaged.
    pub fn known_tokens(&self, tokens: &Vec<u32>) -> (r: Vec<u32>)
        ensures
            r@ == tokens@.filter(has_row(self.rows@.len())),
    {
        let n: usize = self.rows.len();
        let ghost p = has_row(self.rows@.len());
        let mut out: Vec<u32> = Vec::new();
        let mut i: usize = 0;
        proof {
            reveal(Seq::filter);
            assert(tokens@.subrange(0, 0) =~= Seq::empty());
        }
        while i < tokens.len()
            invariant
                i <= tokens@.len(),
                n == self.rows@.len(),
                p == has_row(self.rows@.len()),
                out@ == tokens@.subrange(0, i as int).filter(p),
            decreases tokens.len() - i,
        {
            let t: u32 = tokens[i];
            proof {
                let shorter = tokens@.subrange(0, i as int);
                assert(tokens@.subrange(0, i + 1) =~= shorter.push(t));
                crate::assoc::lemma_filter_push(shorter, t, p);
            }
            if (t as u64) < (n as u64) {
                out.push(t);
            }
            i = i + 1;
        }
        proof {
            assert(tokens@.subrange(0, tokens@.len() as int) =~= tokens@);
        }
        out
    }
}

// ── Laws ────────────────────────────────────────────────────────────────

/// An embedding of nothing but zeros, of either sign, says nothing; one component that is
/// another number makes it say something.
pub proof fn law_zeros_say_nothing(v: Seq<u32>, i: int)
    ensures
        (forall|k: int| 0 <= k < v.len() ==> #[trigger] v[k] == 0 || v[k] == 0x8000_0000)
            ==> !says_something(v),
        0 <= i < v.len() && v[i] != 0 && v[i] != 0x8000_0000 ==> says_something(v),
{
}

/// The row of a token holds its components, each of two bytes, the lower one first, one row
/// after the other.
pub proof fn law_rows_stand_in_order(data: Seq<u8>, dims: int, row: int, j: int)
    requires
        0 <= j < dims,
        0 <= row,
    ensures
        row_of(data, dims, row).len() == dims,
        row_of(data, dims, row)[j] == (data[2 * (row * dims + j)] + 256 * data[2 * (row * dims + j)
            + 1]) as u16,
{
}

/// Known are exactly the tokens that have a row.
pub proof fn law_known_tokens_have_rows(tokens: Seq<u32>, rows: nat, t: u32)
    ensures
        tokens.filter(has_row(rows)).contains(t) <==> tokens.contains(t) && t < rows,
{
    crate::assoc::lemma_filter_contains(tokens, has_row(rows), t);
}

/// A table fits where it has a number of rows and a width and its bytes hold two for each
/// component.
pub proof fn law_tables_that_fit(rows: usize, dims: usize, data: Seq<u8>)
    ensures
        table_fits((seq![rows, dims], data)) <==> 2 * (rows * dims) <= data.len(),
        !table_fits((seq![rows], data)),
{
    assert(seq![rows, dims][0] == rows && seq![rows, dims][1] == dims);
}

/// A digit outside text goes on the number before it, and anything else ends it; a
/// quotation mark begins a text, and ends it unless a backslash stands before it.
pub proof fn law_scanning_numbers(b: Seq<u8>, c: u8)
    ensures
        !scanned(b).in_text && 0x30 <= c <= 0x39 ==> scanned(b.push(c)).number == 10
            * scanned(b).number + (c - 0x30),
        !scanned(b).in_text && !(0x30 <= c <= 0x39) ==> scanned(b.push(c)).number == 0,
        scanned(b).in_text ==> scanned(b.push(c)).number == 0,
        !scanned(b).in_text ==> (scanned(b.push(c)).in_text <==> c == 0x22),
        scanned(b).in_text && !scanned(b).escaped ==> (!scanned(b.push(c)).in_text <==> c == 0x22),
        scanned(b).in_text && !scanned(b).escaped ==> (scanned(b.push(c)).escaped <==> c == 0x5c),
        scanned(b).in_text && scanned(b).escaped ==> scanned(b.push(c)).in_text && !scanned(
            b.push(c),
        ).escaped,
        !scanned(Seq::empty()).in_text && scanned(Seq::empty()).number == 0,
{
    assert(b.push(c).drop_last() =~= b);
}

/// No number in the header of a file that is in bounds, or a beginning of one, leads beyond
/// what can be addressed after the header.
pub proof fn law_header_numbers_are_in_bounds(file: Seq<u8>, k: int)
    requires
        header_in_bounds(file),
        file.len() >= 8,
        8 + u64_at(file, 0) <= file.len(),
        0 <= k <= u64_at(file, 0),
    ensures
        scanned(file.subrange(8, 8 + k)).number + 8 + u64_at(file, 0) <= usize::MAX,
{
    let header = file.subrange(8, 8 + u64_at(file, 0) as int);
    assert(header.subrange(0, k) =~= file.subrange(8, 8 + k));
}

/// A file that is too short for its header is left to the reader to refuse.
pub proof fn law_short_files_are_in_bounds(file: Seq<u8>)
    requires
        file.len() < 8 || 8 + u64_at(file, 0) > file.len(),
    ensures
        header_in_bounds(file),
{
}

} // verus!
