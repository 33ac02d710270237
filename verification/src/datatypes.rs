//! Logical types, scalar cells, fields, schemas and errors.

use vstd::prelude::*;
use vstd::utf8::encode_utf8;

verus! {

/// The logical type of a column. A float column holds the raw bit patterns
/// of its values; a categorical column holds codes into a string cache that
/// both sides of a join share.
#[derive(Clone, Copy, Debug, PartialEq, Eq, Structural)]
pub enum DataType {
    Boolean,
    UInt8,
    UInt16,
    UInt32,
    UInt64,
    Int8,
    Int16,
    Int32,
    Int64,
    Float32,
    Float64,
    Utf8,
    List,
    Categorical,
    Null,
}

/// One cell of a column.
#[derive(Debug)]
pub enum AnyValue {
    Null,
    Boolean(bool),
    UInt8(u8),
    UInt16(u16),
    UInt32(u32),
    UInt64(u64),
    Int8(i8),
    Int16(i16),
    Int32(i32),
    Int64(i64),
    /// The bit pattern of a 32-bit float.
    Float32(u32),
    /// The bit pattern of a 64-bit float.
    Float64(u64),
    Utf8(String),
    /// A code into the string cache.
    Categorical(u32),
}

/// The mathematical value of a cell: nothing, a truth value, a number of a
/// given logical type, or a text.
pub ghost enum Cell {
    Null,
    Bool(bool),
    Num(DataType, int),
    Text(Seq<char>),
}

/// The numbers that a cell of logical type `dtype` can hold; no number where
/// the type is not numeric.
pub open spec fn num_in_range(dtype: DataType, n: int) -> bool {
    match dtype {
        DataType::UInt8 => 0 <= n <= u8::MAX,
        DataType::UInt16 => 0 <= n <= u16::MAX,
        DataType::UInt32 | DataType::Float32 | DataType::Categorical => 0 <= n <= u32::MAX,
        DataType::UInt64 | DataType::Float64 => 0 <= n <= u64::MAX,
        DataType::Int8 => i8::MIN <= n <= i8::MAX,
        DataType::Int16 => i16::MIN <= n <= i16::MAX,
        DataType::Int32 => i32::MIN <= n <= i32::MAX,
        DataType::Int64 => i64::MIN <= n <= i64::MAX,
        _ => false,
    }
}

impl Cell {
    /// A number cell holds a number of its own type, and the UTF-8 form of
    /// a text cell has a length that 64 bits hold.
    pub open spec fn wf(self) -> bool {
        match self {
            Cell::Num(dtype, n) => num_in_range(dtype, n),
            Cell::Text(s) => encode_utf8(s).len() <= u64::MAX,
            _ => true,
        }
    }

    /// The logical type of the cell, that of a null cell being `Null`.
    pub open spec fn dtype(self) -> DataType {
        match self {
            Cell::Null => DataType::Null,
            Cell::Bool(_) => DataType::Boolean,
            Cell::Num(d, _) => d,
            Cell::Text(_) => DataType::Utf8,
        }
    }

    /// The cell may stand in a column of type `dtype`: it is null, or of
    /// that type.
    pub open spec fn fits(self, dtype: DataType) -> bool {
        self.wf() && (self is Null || self.dtype() == dtype)
    }
}

impl View for AnyValue {
    type V = Cell;

    open spec fn view(&self) -> Cell {
        match *self {
            AnyValue::Null => Cell::Null,
            AnyValue::Boolean(b) => Cell::Bool(b),
            AnyValue::UInt8(v) => Cell::Num(DataType::UInt8, v as int),
            AnyValue::UInt16(v) => Cell::Num(DataType::UInt16, v as int),
            AnyValue::UInt32(v) => Cell::Num(DataType::UInt32, v as int),
            AnyValue::UInt64(v) => Cell::Num(DataType::UInt64, v as int),
            AnyValue::Int8(v) => Cell::Num(DataType::Int8, v as int),
            AnyValue::Int16(v) => Cell::Num(DataType::Int16, v as int),
            AnyValue::Int32(v) => Cell::Num(DataType::Int32, v as int),
            AnyValue::Int64(v) => Cell::Num(DataType::Int64, v as int),
            AnyValue::Float32(v) => Cell::Num(DataType::Float32, v as int),
            AnyValue::Float64(v) => Cell::Num(DataType::Float64, v as int),
            AnyValue::Utf8(s) => Cell::Text(s@),
            AnyValue::Categorical(v) => Cell::Num(DataType::Categorical, v as int),
        }
    }
}

impl AnyValue {
    /// Whether the cell is null.
    pub fn is_null(&self) -> (r: bool)
        ensures
            r == (self@ is Null),
    {
        match self {
            AnyValue::Null => true,
            _ => false,
        }
    }

    /// The logical type of the cell, that of a null cell being `Null`.
    pub fn dtype(&self) -> (r: DataType)
        ensures
            r == self@.dtype(),
            self@.wf(),
    {
        match self {
            AnyValue::Null => DataType::Null,
            AnyValue::Boolean(_) => DataType::Boolean,
            AnyValue::UInt8(_) => DataType::UInt8,
            AnyValue::UInt16(_) => DataType::UInt16,
            AnyValue::UInt32(_) => DataType::UInt32,
            AnyValue::UInt64(_) => DataType::UInt64,
            AnyValue::Int8(_) => DataType::Int8,
            AnyValue::Int16(_) => DataType::Int16,
            AnyValue::Int32(_) => DataType::Int32,
            AnyValue::Int64(_) => DataType::Int64,
            AnyValue::Float32(_) => DataType::Float32,
            AnyValue::Float64(_) => DataType::Float64,
            AnyValue::Utf8(s) => {
                // The UTF-8 form of the text has a length, which the machine holds.
                let _ = s.as_str().as_bytes().len();
                DataType::Utf8
            },
            AnyValue::Categorical(_) => DataType::Categorical,
        }
    }

    /// Whether the cell may stand in a column of type `dtype`.
    pub fn fits(&self, dtype: DataType) -> (r: bool)
        ensures
            r == self@.fits(dtype),
            self@.wf(),
    {
        let own = self.dtype();
        own == DataType::Null || own == dtype
    }

    /// A copy of the cell.
    pub fn duplicate(&self) -> (r: AnyValue)
        ensures
            r@ == self@,
    {
        match self {
            AnyValue::Null => AnyValue::Null,
            AnyValue::Boolean(b) => AnyValue::Boolean(*b),
            AnyValue::UInt8(v) => AnyValue::UInt8(*v),
            AnyValue::UInt16(v) => AnyValue::UInt16(*v),
            AnyValue::UInt32(v) => AnyValue::UInt32(*v),
            AnyValue::UInt64(v) => AnyValue::UInt64(*v),
            AnyValue::Int8(v) => AnyValue::Int8(*v),
            AnyValue::Int16(v) => AnyValue::Int16(*v),
            AnyValue::Int32(v) => AnyValue::Int32(*v),
            AnyValue::Int64(v) => AnyValue::Int64(*v),
            AnyValue::Float32(v) => AnyValue::Float32(*v),
            AnyValue::Float64(v) => AnyValue::Float64(*v),
            AnyValue::Utf8(s) => AnyValue::Utf8(s.clone()),
            AnyValue::Categorical(v) => AnyValue::Categorical(*v),
        }
    }

    /// Whether two cells hold the same value. Null equals null, floats are
    /// compared by their bits, and cells of different types differ.
    pub fn same(&self, other: &AnyValue) -> (r: bool)
        ensures
            r == (self@ == other@),
    {
        match (self, other) {
            (AnyValue::Null, AnyValue::Null) => true,
            (AnyValue::Boolean(a), AnyValue::Boolean(b)) => *a == *b,
            (AnyValue::UInt8(a), AnyValue::UInt8(b)) => *a == *b,
            (AnyValue::UInt16(a), AnyValue::UInt16(b)) => *a == *b,
            (AnyValue::UInt32(a), AnyValue::UInt32(b)) => *a == *b,
            (AnyValue::UInt64(a), AnyValue::UInt64(b)) => *a == *b,
            (AnyValue::Int8(a), AnyValue::Int8(b)) => *a == *b,
            (AnyValue::Int16(a), AnyValue::Int16(b)) => *a == *b,
            (AnyValue::Int32(a), AnyValue::Int32(b)) => *a == *b,
            (AnyValue::Int64(a), AnyValue::Int64(b)) => *a == *b,
            (AnyValue::Float32(a), AnyValue::Float32(b)) => *a == *b,
            (AnyValue::Float64(a), AnyValue::Float64(b)) => *a == *b,
            (AnyValue::Utf8(a), AnyValue::Utf8(b)) => *a == *b,
            (AnyValue::Categorical(a), AnyValue::Categorical(b)) => *a == *b,
            _ => false,
        }
    }
}

/// The mathematical value of an error.
pub ghost enum ErrorView {
    NotFound(Seq<char>),
    TypeMismatch(DataType, DataType),
    Unsupported(Seq<char>, DataType),
    Arity(usize, usize),
    External(Seq<char>),
    Invariant(Seq<char>),
}

impl View for PolarsError {
    type V = ErrorView;

    open spec fn view(&self) -> ErrorView {
        match *self {
            PolarsError::NotFound(s) => ErrorView::NotFound(s@),
            PolarsError::TypeMismatch(a, b) => ErrorView::TypeMismatch(a, b),
            PolarsError::Unsupported(op, a) => ErrorView::Unsupported(op@, a),
            PolarsError::Arity(a, b) => ErrorView::Arity(a, b),
            PolarsError::External(s) => ErrorView::External(s@),
            PolarsError::Invariant(s) => ErrorView::Invariant(s@),
        }
    }
}

/// What went wrong in a request to the library.
#[derive(Debug)]
pub enum PolarsError {
    /// No column has this name.
    NotFound(String),
    /// A column of the first type was asked for, one of the second was given.
    TypeMismatch(DataType, DataType),
    /// The operation of this name does not take columns of this type.
    Unsupported(String, DataType),
    /// So many keys were expected, so many were given.
    Arity(usize, usize),
    /// A reader or parser outside the library failed.
    External(String),
    /// The request would break a rule that tables live by; the text is the
    /// column's name.
    Invariant(String),
}

/// The text of a name, copied into a `String`.
pub fn owned(s: &str) -> (r: String)
    ensures
        r@ == s@,
{
    s.to_owned()
}

/// Whether two names spell the same.
pub fn same_name(a: &str, b: &str) -> (r: bool)
    ensures
        r == (a@ == b@),
{
    let x = a.to_owned();
    let y = b.to_owned();
    x == y
}

/// A column's name and logical type.
#[derive(Debug)]
pub struct Field {
    pub name: String,
    pub data_type: DataType,
}

impl View for Field {
    type V = (Seq<char>, DataType);

    open spec fn view(&self) -> (Seq<char>, DataType) {
        (self.name@, self.data_type)
    }
}

impl Field {
    pub fn new(name: &str, data_type: DataType) -> (r: Field)
        ensures
            r@ == (name@, data_type),
    {
        Field { name: owned(name), data_type }
    }

    pub fn name(&self) -> (r: &String)
        ensures
            r@ == self@.0,
    {
        &self.name
    }

    pub fn data_type(&self) -> (r: DataType)
        ensures
            r == self@.1,
    {
        self.data_type
    }

    /// A copy of the field.
    pub fn duplicate(&self) -> (r: Field)
        ensures
            r@ == self@,
    {
        Field { name: self.name.clone(), data_type: self.data_type }
    }
}

/// The first position at which `s` holds `x`, or the length of `s` where it
/// holds none.
pub open spec fn first_index<T>(s: Seq<T>, x: T) -> int
    decreases s.len(),
{
    if s.len() == 0 {
        0
    } else if s[0] == x {
        0
    } else {
        1 + first_index(s.drop_first(), x)
    }
}

/// `first_index` finds the first item that equals `x`, and runs to the end
/// exactly where there is none.
pub proof fn lemma_first_index<T>(s: Seq<T>, x: T)
    ensures
        0 <= first_index(s, x) <= s.len(),
        s.contains(x) <==> first_index(s, x) < s.len(),
        first_index(s, x) < s.len() ==> s[first_index(s, x)] == x,
        forall|i: int| 0 <= i < first_index(s, x) ==> s[i] != x,
    decreases s.len(),
{
    if s.len() == 0 {
    } else if s[0] == x {
        assert(s.contains(x));
    } else {
        let rest = s.drop_first();
        lemma_first_index(rest, x);
        let p = first_index(rest, x);
        assert forall|i: int| 0 <= i < 1 + p implies s[i] != x by {
            if i > 0 {
                assert(rest[i - 1] == s[i]);
            }
        }
        if p < rest.len() {
            assert(rest[p] == s[p + 1]);
            assert(s.contains(x));
        }
        if s.contains(x) {
            let i = choose|i: int| 0 <= i < s.len() && s[i] == x;
            assert(rest[i - 1] == s[i]);
            assert(rest.contains(x));
        }
    }
}

/// The names of a list of fields.
pub open spec fn field_names(fields: Seq<(Seq<char>, DataType)>) -> Seq<Seq<char>> {
    Seq::new(fields.len(), |i: int| fields[i].0)
}

/// The first position at which `fields` names `name`, or the number of
/// fields where none does.
pub open spec fn position_of(fields: Seq<(Seq<char>, DataType)>, name: Seq<char>) -> int {
    first_index(field_names(fields), name)
}

/// Whether some field of `fields` is named `name`.
pub open spec fn has_name(fields: Seq<(Seq<char>, DataType)>, name: Seq<char>) -> bool {
    field_names(fields).contains(name)
}

/// An ordered list of fields.
#[derive(Debug)]
pub struct Schema {
    pub fields: Vec<Field>,
}

impl View for Schema {
    type V = Seq<(Seq<char>, DataType)>;

    open spec fn view(&self) -> Seq<(Seq<char>, DataType)> {
        Seq::new(self.fields@.len(), |i: int| self.fields@[i]@)
    }
}

impl Schema {
    pub fn new(fields: Vec<Field>) -> (r: Schema)
        ensures
            r.fields == fields,
    {
        Schema { fields }
    }

    pub fn fields(&self) -> (r: &Vec<Field>)
        ensures
            *r == self.fields,
    {
        &self.fields
    }

    pub fn len(&self) -> (r: usize)
        ensures
            r == self@.len(),
    {
        self.fields.len()
    }

    /// The position of the first field named `name`.
    pub fn index_of(&self, name: &str) -> (r: Result<usize, PolarsError>)
        ensures
            r is Ok <==> has_name(self@, name@),
            r matches Ok(i) ==> i == position_of(self@, name@),
            r matches Err(e) ==> e@ == ErrorView::NotFound(name@),
    {
        let mut i: usize = 0;
        while i < self.fields.len()
            invariant
                i <= self.fields.len(),
                forall|j: int| 0 <= j < i ==> field_names(self@)[j] != name@,
            decreases self.fields.len() - i,
        {
            if same_name(self.fields[i].name.as_str(), name) {
                proof {
                    lemma_first_index(field_names(self@), name@);
                    assert(field_names(self@)[i as int] == name@);
                }
                return Ok(i);
            }
            i += 1;
        }
        proof {
            lemma_first_index(field_names(self@), name@);
            if field_names(self@).contains(name@) {
                let j = choose|j: int| 0 <= j < field_names(self@).len() && field_names(self@)[j] == name@;
                assert(self@[j].0 == name@);
            }
        }
        Err(PolarsError::NotFound(owned(name)))
    }

    /// The first field named `name`.
    pub fn field_with_name(&self, name: &str) -> (r: Result<&Field, PolarsError>)
        ensures
            r is Ok <==> has_name(self@, name@),
            r matches Ok(f) ==> f@ == self@[position_of(self@, name@)],
            r matches Err(e) ==> e@ == ErrorView::NotFound(name@),
    {
        match self.index_of(name) {
            Ok(i) => {
                proof {
                    lemma_first_index(field_names(self@), name@);
                }
                Ok(&self.fields[i])
            },
            Err(e) => Err(e),
        }
    }

    /// A copy of the schema.
    pub fn duplicate(&self) -> (r: Schema)
        ensures
            r@ == self@,
    {
        let mut fields: Vec<Field> = Vec::new();
        let mut i: usize = 0;
        while i < self.fields.len()
            invariant
                i <= self.fields.len(),
                fields@.len() == i,
                forall|j: int| 0 <= j < i ==> fields@[j]@ == self.fields@[j]@,
            decreases self.fields.len() - i,
        {
            fields.push(self.fields[i].duplicate());
            i += 1;
        }
        let r = Schema { fields };
        assert(r@ =~= self@);
        r
    }
}

/// The fields of `fields` merged into `merged`, one after the other: a
/// field of a new name is put at the end, one of a name that `merged` has
/// with the same type is dropped, and one of a name that `merged` has with
/// another type stops the merge with both types.
pub open spec fn merge_fields(
    merged: Seq<(Seq<char>, DataType)>,
    fields: Seq<(Seq<char>, DataType)>,
) -> Result<Seq<(Seq<char>, DataType)>, ErrorView>
    decreases fields.len(),
{
    if fields.len() == 0 {
        Ok(merged)
    } else {
        let f = fields[0];
        let at = position_of(merged, f.0);
        if at == merged.len() {
            merge_fields(merged.push(f), fields.drop_first())
        } else if merged[at].1 == f.1 {
            merge_fields(merged, fields.drop_first())
        } else {
            Err(ErrorView::TypeMismatch(merged[at].1, f.1))
        }
    }
}

/// The view of the result of a schema derivation.
pub open spec fn schema_view(r: Result<Schema, PolarsError>) -> Result<Seq<(Seq<char>, DataType)>, ErrorView> {
    match r {
        Ok(s) => Ok(s@),
        Err(e) => Err(e@),
    }
}

impl Schema {
    /// Merges the fields of `other` into this schema.
    pub fn try_merge(self, other: &Schema) -> (r: Result<Schema, PolarsError>)
        ensures
            schema_view(r) == merge_fields(self@, other@),
    {
        let mut merged = self;
        let mut i: usize = 0;
        assert(other@.skip(0) =~= other@);
        while i < other.fields.len()
            invariant
                i <= other.fields.len(),
                merge_fields(merged@, other@.skip(i as int)) == merge_fields(self@, other@),
            decreases other.fields.len() - i,
        {
            let field = &other.fields[i];
            proof {
                assert(other@.skip(i as int)[0] == field@);
                assert(other@.skip(i as int).drop_first() =~= other@.skip(i + 1));
                lemma_first_index(field_names(merged@), field@.0);
            }
            match merged.index_of(field.name.as_str()) {
                Ok(at) => {
                    if merged.fields[at].data_type != field.data_type {
                        return Err(PolarsError::TypeMismatch(merged.fields[at].data_type, field.data_type));
                    }
                },
                Err(_) => {
                    let ghost before = merged@;
                    merged.fields.push(field.duplicate());
                    assert(merged@ =~= before.push(field@));
                },
            }
            i += 1;
        }
        Ok(merged)
    }
}

} // verus!
