use vstd::prelude::*;

use crate::dclexer::DCKeyword;
use crate::dctype::{
    numeric_hash_inputs, typedef_hash_inputs, DCNumericType, DCTypeDefinition, NumericTypeView,
    TypeDefView,
};
use crate::globals::{
    DCFileHash, DClassId, FieldId, DC_SORT_INHERITANCE_BY_FILE, DC_VIRTUAL_INHERITANCE,
};
use crate::hashgen::{hash_of, string_inputs, DCHashGenerator};

verus! {

/// The largest number of classes a schema file can hold: class ids are 16-bit
/// and the top value is never assigned.
pub const DC_ID_SPACE: usize = 65535;

/// The largest number of fields a schema file can hold: every 16-bit field id.
pub const DC_FIELD_ID_SPACE: usize = 65536;

/// Failures while a schema file is built.
#[derive(Debug, Clone, Copy, PartialEq, Eq, Structural)]
pub enum DCFileError {
    /// The 16-bit class or field id space is used up.
    IdSpaceExhausted,
    /// A field was added to a class or struct the file does not hold.
    UnknownOwner,
}

/// An import of names from an external module; carried through, not interpreted.
pub struct DCImport {
    pub python_module: String,
    pub symbols: Vec<String>,
}

/// What an import holds.
pub struct ImportView {
    pub module: Seq<char>,
    pub symbols: Seq<Seq<char>>,
}

impl View for DCImport {
    type V = ImportView;

    open spec fn view(&self) -> ImportView {
        ImportView {
            module: self.python_module@,
            symbols: self.symbols@.map_values(|s: String| s@),
        }
    }
}

impl DCImport {
    pub fn new(mod_: String, symbols: Vec<String>) -> (r: DCImport)
        ensures
            r.python_module == mod_,
            r.symbols == symbols,
    {
        DCImport { python_module: mod_, symbols }
    }
}

/// The type of a field: a plain type, or a numeric one with its constraints.
pub enum DCFieldType {
    Plain(DCTypeDefinition),
    Numeric(DCNumericType),
}

/// What a field's type holds.
pub enum FieldTypeView {
    Plain(TypeDefView),
    Numeric(NumericTypeView),
}

impl View for DCFieldType {
    type V = FieldTypeView;

    open spec fn view(&self) -> FieldTypeView {
        match self {
            DCFieldType::Plain(t) => FieldTypeView::Plain(t@),
            DCFieldType::Numeric(n) => FieldTypeView::Numeric(n@),
        }
    }
}

/// The inputs a field type folds into a fingerprint.
pub open spec fn field_type_hash_inputs(t: FieldTypeView) -> Seq<u32> {
    match t {
        FieldTypeView::Plain(p) => typedef_hash_inputs(p),
        FieldTypeView::Numeric(n) => numeric_hash_inputs(n),
    }
}

/// What a field holds.
pub struct FieldView {
    pub name: Seq<char>,
    pub id: FieldId,
    pub field_type: FieldTypeView,
    pub keywords: Seq<DCKeyword>,
}

/// The inputs a field folds into a fingerprint: its name, then its type.
pub open spec fn field_hash_inputs(f: FieldView) -> Seq<u32> {
    string_inputs(f.name) + field_type_hash_inputs(f.field_type)
}

/// The inputs a list of fields folds into a fingerprint, in order.
pub open spec fn fields_hash_inputs(fs: Seq<FieldView>) -> Seq<u32>
    decreases fs.len(),
{
    if fs.len() == 0 {
        Seq::empty()
    } else {
        fields_hash_inputs(fs.drop_last()) + field_hash_inputs(fs.last())
    }
}

/// A named member of a class or struct, with a file-wide unique id, a type and
/// access keywords.
pub struct DCField {
    name: String,
    field_id: FieldId,
    field_type: DCFieldType,
    keywords: Vec<DCKeyword>,
}

impl View for DCField {
    type V = FieldView;

    closed spec fn view(&self) -> FieldView {
        FieldView {
            name: self.name@,
            id: self.field_id,
            field_type: self.field_type@,
            keywords: self.keywords@,
        }
    }
}

impl DCField {
    /// A field with no keywords; its id is assigned when a file takes it.
    pub fn new(name: String, field_type: DCFieldType) -> (r: DCField)
        ensures
            r@ == (FieldView {
                name: name@,
                id: 0,
                field_type: field_type@,
                keywords: Seq::empty(),
            }),
    {
        DCField { name, field_id: 0, field_type, keywords: Vec::new() }
    }

    pub fn get_field_id(&self) -> (r: FieldId)
        ensures
            r == self@.id,
    {
        self.field_id
    }

    pub fn add_keyword(&mut self, keyword: DCKeyword)
        ensures
            final(self)@ == (FieldView {
                keywords: old(self)@.keywords.push(keyword),
                ..old(self)@
            }),
    {
        self.keywords.push(keyword);
    }

    pub fn has_keyword(&self, keyword: DCKeyword) -> (r: bool)
        ensures
            r == self@.keywords.contains(keyword),
    {
        let mut i: usize = 0;
        while i < self.keywords.len()
            invariant
                i <= self.keywords@.len(),
                forall|j: int| 0 <= j < i ==> self.keywords@[j] != keyword,
            decreases self.keywords@.len() - i,
        {
            if self.keywords[i] == keyword {
                return true;
            }
            i = i + 1;
        }
        false
    }

    fn set_field_id(&mut self, id: FieldId)
        ensures
            final(self)@ == (FieldView { id, ..old(self)@ }),
    {
        self.field_id = id;
    }

    /// Folds the name and the type into `hashgen`.
    pub fn generate_hash(&self, hashgen: &mut DCHashGenerator)
        ensures
            final(hashgen)@ == old(hashgen)@ + field_hash_inputs(self@),
    {
        hashgen.add_string(self.name.as_str());
        match &self.field_type {
            DCFieldType::Plain(t) => t.generate_hash(hashgen),
            DCFieldType::Numeric(n) => n.generate_hash(hashgen),
        }
        proof {
            assert(final(hashgen)@ =~= old(hashgen)@ + field_hash_inputs(self@));
        }
    }
}

/// Folds each field of `fields` into `hashgen`, in order.
fn hash_fields(fields: &Vec<DCField>, hashgen: &mut DCHashGenerator)
    ensures
        final(hashgen)@ == old(hashgen)@ + fields_hash_inputs(fields@.map_values(|f: DCField| f@)),
{
    let ghost fs = fields@.map_values(|f: DCField| f@);
    let mut i: usize = 0;
    while i < fields.len()
        invariant
            i <= fields@.len(),
            fs == fields@.map_values(|f: DCField| f@),
            hashgen@ == old(hashgen)@ + fields_hash_inputs(fs.subrange(0, i as int)),
        decreases fields@.len() - i,
    {
        fields[i].generate_hash(hashgen);
        i = i + 1;
        proof {
            let p = fs.subrange(0, i as int);
            assert(p.drop_last() =~= fs.subrange(0, i - 1));
            assert(hashgen@ =~= old(hashgen)@ + fields_hash_inputs(p));
        }
    }
    proof {
        assert(fs.subrange(0, i as int) =~= fs);
    }
}

/// What a class holds.
pub struct ClassView {
    pub name: Seq<char>,
    pub id: DClassId,
    pub parents: Seq<DClassId>,
    pub fields: Seq<FieldView>,
}

/// The inputs a class folds into a fingerprint: its name, its parents' count and
/// ids, then each field in declaration order.
pub open spec fn class_hash_inputs(c: ClassView) -> Seq<u32> {
    string_inputs(c.name) + seq![c.parents.len() as u32] + c.parents.map_values(
        |p: DClassId| p as u32,
    ) + fields_hash_inputs(c.fields)
}

/// A named, network-visible class of objects.
pub struct DClass {
    name: String,
    class_id: DClassId,
    parents: Vec<DClassId>,
    fields: Vec<DCField>,
}

impl View for DClass {
    type V = ClassView;

    closed spec fn view(&self) -> ClassView {
        ClassView {
            name: self.name@,
            id: self.class_id,
            parents: self.parents@,
            fields: self.fields@.map_values(|f: DCField| f@),
        }
    }
}

impl DClass {
    /// A class with no parents and no fields; its id is assigned when a file takes it.
    pub fn new(name: String) -> (r: DClass)
        ensures
            r@ == (ClassView {
                name: name@,
                id: 0,
                parents: Seq::empty(),
                fields: Seq::empty(),
            }),
    {
        let r = DClass { name, class_id: 0, parents: Vec::new(), fields: Vec::new() };
        proof {
            assert(r@.fields =~= Seq::<FieldView>::empty());
        }
        r
    }

    pub fn get_name(&self) -> (r: &String)
        ensures
            r@ == self@.name,
    {
        &self.name
    }

    pub fn get_dclass_id(&self) -> (r: DClassId)
        ensures
            r == self@.id,
    {
        self.class_id
    }

    pub fn get_num_fields(&self) -> (r: usize)
        ensures
            r == self@.fields.len(),
    {
        self.fields.len()
    }

    /// The field at `index` in declaration order.
    pub fn get_field(&self, index: usize) -> (r: Option<&DCField>)
        ensures
            index < self@.fields.len() ==> r is Some && r->Some_0@ == self@.fields[index as int],
            index >= self@.fields.len() ==> r is None,
    {
        if index < self.fields.len() {
            Some(&self.fields[index])
        } else {
            None
        }
    }

    /// Declares that this class inherits from the class with id `parent`.
    pub fn add_parent(&mut self, parent: DClassId)
        ensures
            final(self)@ == (ClassView { parents: old(self)@.parents.push(parent), ..old(self)@ }),
    {
        self.parents.push(parent);
    }

    /// Appends a field to this class before the class is added to a file; the
    /// file assigns its id then.
    pub fn add_field(&mut self, field: DCField)
        ensures
            final(self)@ == (ClassView { fields: old(self)@.fields.push(field@), ..old(self)@ }),
    {
        self.fields.push(field);
        proof {
            assert(final(self)@.fields =~= old(self)@.fields.push(field@));
        }
    }

    /// Folds the name, the parents and the fields into `hashgen`.
    pub fn generate_hash(&self, hashgen: &mut DCHashGenerator)
        ensures
            final(hashgen)@ == old(hashgen)@ + class_hash_inputs(self@),
    {
        hashgen.add_string(self.name.as_str());
        hashgen.add_int(self.parents.len() as u32);
        let ghost mid = hashgen@;
        let mut i: usize = 0;
        while i < self.parents.len()
            invariant
                i <= self.parents@.len(),
                hashgen@ == mid + self.parents@.subrange(0, i as int).map_values(
                    |p: DClassId| p as u32,
                ),
            decreases self.parents@.len() - i,
        {
            hashgen.add_int(self.parents[i] as u32);
            i = i + 1;
            proof {
                assert(hashgen@ =~= mid + self.parents@.subrange(0, i as int).map_values(
                    |p: DClassId| p as u32,
                ));
            }
        }
        proof {
            assert(self.parents@.subrange(0, i as int) =~= self.parents@);
        }
        hash_fields(&self.fields, hashgen);
        proof {
            assert(final(hashgen)@ =~= old(hashgen)@ + class_hash_inputs(self@));
        }
    }
}

/// What a struct holds.
pub struct StructView {
    pub name: Seq<char>,
    pub fields: Seq<FieldView>,
}

/// A named grouping of fields, used as a field type rather than as a network entity.
pub struct DCStruct {
    name: String,
    fields: Vec<DCField>,
}

impl View for DCStruct {
    type V = StructView;

    closed spec fn view(&self) -> StructView {
        StructView { name: self.name@, fields: self.fields@.map_values(|f: DCField| f@) }
    }
}

impl DCStruct {
    pub fn new(name: String) -> (r: DCStruct)
        ensures
            r@ == (StructView { name: name@, fields: Seq::empty() }),
    {
        let r = DCStruct { name, fields: Vec::new() };
        proof {
            assert(r@.fields =~= Seq::<FieldView>::empty());
        }
        r
    }

    pub fn get_name(&self) -> (r: &String)
        ensures
            r@ == self@.name,
    {
        &self.name
    }

    pub fn get_num_fields(&self) -> (r: usize)
        ensures
            r == self@.fields.len(),
    {
        self.fields.len()
    }

    /// Appends a field to this struct before the struct is added to a file; the
    /// file assigns its id then.
    pub fn add_field(&mut self, field: DCField)
        ensures
            final(self)@ == (StructView { fields: old(self)@.fields.push(field@), ..old(self)@ }),
    {
        self.fields.push(field);
        proof {
            assert(final(self)@.fields =~= old(self)@.fields.push(field@));
        }
    }
}

/// Who owns a field: the class or the struct at an index of the file.
#[derive(Debug, Clone, Copy, PartialEq, Eq, Structural)]
pub enum DCFieldOwner {
    Class(usize),
    Struct(usize),
}

/// Where a field lives: its owner and its position in the owner's field list.
#[derive(Debug, Clone, Copy, PartialEq, Eq, Structural)]
pub struct FieldLocation {
    pub owner: DCFieldOwner,
    pub index: usize,
}

/// What a schema file holds.
pub struct DCFileView {
    pub structs: Seq<StructView>,
    pub classes: Seq<ClassView>,
    pub imports: Seq<ImportView>,
    /// Where the field with each id lives.
    pub field_table: Seq<FieldLocation>,
    pub all_object_valid: bool,
    pub inherited_fields_stale: bool,
    pub virtual_inheritance: bool,
    pub sort_inheritance_by_file: bool,
}

/// Whether `o` names a class or struct that the file holds.
pub open spec fn owner_valid(v: DCFileView, o: DCFieldOwner) -> bool {
    match o {
        DCFieldOwner::Class(i) => i < v.classes.len(),
        DCFieldOwner::Struct(i) => i < v.structs.len(),
    }
}

/// The fields of the owner `o`.
pub open spec fn owner_fields(v: DCFileView, o: DCFieldOwner) -> Seq<FieldView> {
    match o {
        DCFieldOwner::Class(i) => v.classes[i as int].fields,
        DCFieldOwner::Struct(i) => v.structs[i as int].fields,
    }
}

/// Whether a field lives at `l`.
pub open spec fn location_valid(v: DCFileView, l: FieldLocation) -> bool {
    owner_valid(v, l.owner) && l.index < owner_fields(v, l.owner).len()
}

/// The field at `l`.
pub open spec fn field_at(v: DCFileView, l: FieldLocation) -> FieldView {
    owner_fields(v, l.owner)[l.index as int]
}

/// A well-formed file: class ids are the classes' positions, and the field table
/// and the fields agree, so that every field's id is unique across the file.
pub open spec fn file_wf(v: DCFileView) -> bool {
    &&& v.classes.len() <= DC_ID_SPACE
    &&& forall|i: int| 0 <= i < v.classes.len() ==> #[trigger] v.classes[i].id == i
    &&& v.field_table.len() <= DC_FIELD_ID_SPACE
    &&& forall|l: FieldLocation| #[trigger]
        location_valid(v, l) ==> field_at(v, l).id < v.field_table.len() && v.field_table[field_at(
            v,
            l,
        ).id as int] == l
    &&& forall|k: int|
        0 <= k < v.field_table.len() ==> location_valid(v, #[trigger] v.field_table[k])
            && field_at(v, v.field_table[k]).id == k
}

/// `fs` with ids assigned in order from `base`.
pub open spec fn renumbered(fs: Seq<FieldView>, base: nat) -> Seq<FieldView> {
    Seq::new(fs.len(), |j: int| FieldView { id: (base + j) as FieldId, ..fs[j] })
}

/// The table entries of `n` fields of the owner `o`, in order.
pub open spec fn owner_locations(o: DCFieldOwner, n: nat) -> Seq<FieldLocation> {
    Seq::new(n, |j: int| FieldLocation { owner: o, index: j as usize })
}

/// `v` after a field `f` is added to the owner `o`: it takes the next id.
pub open spec fn with_field(v: DCFileView, o: DCFieldOwner, f: FieldView) -> DCFileView {
    let nf = FieldView { id: v.field_table.len() as FieldId, ..f };
    let loc = FieldLocation { owner: o, index: owner_fields(v, o).len() as usize };
    DCFileView {
        classes: match o {
            DCFieldOwner::Class(i) => v.classes.update(
                i as int,
                ClassView { fields: v.classes[i as int].fields.push(nf), ..v.classes[i as int] },
            ),
            DCFieldOwner::Struct(_) => v.classes,
        },
        structs: match o {
            DCFieldOwner::Struct(i) => v.structs.update(
                i as int,
                StructView { fields: v.structs[i as int].fields.push(nf), ..v.structs[i as int] },
            ),
            DCFieldOwner::Class(_) => v.structs,
        },
        field_table: v.field_table.push(loc),
        all_object_valid: false,
        inherited_fields_stale: true,
        ..v
    }
}

/// `v` after the class `c` is added: it takes the next class id, and its fields
/// the next field ids in order.
pub open spec fn with_class(v: DCFileView, c: ClassView) -> DCFileView {
    let o = DCFieldOwner::Class(v.classes.len() as usize);
    DCFileView {
        classes: v.classes.push(
            ClassView {
                id: v.classes.len() as DClassId,
                fields: renumbered(c.fields, v.field_table.len()),
                ..c
            },
        ),
        field_table: v.field_table + owner_locations(o, c.fields.len()),
        all_object_valid: false,
        inherited_fields_stale: true,
        ..v
    }
}

/// `v` after the struct `st` is added: its fields take the next field ids in order.
pub open spec fn with_struct(v: DCFileView, st: StructView) -> DCFileView {
    let o = DCFieldOwner::Struct(v.structs.len() as usize);
    DCFileView {
        structs: v.structs.push(
            StructView { fields: renumbered(st.fields, v.field_table.len()), ..st },
        ),
        field_table: v.field_table + owner_locations(o, st.fields.len()),
        all_object_valid: false,
        inherited_fields_stale: true,
        ..v
    }
}

/// The marker that folds the compatibility flags into a fingerprint: none without
/// virtual inheritance, and a different one for each inheritance order with it.
pub open spec fn inheritance_marker(v: DCFileView) -> Seq<u32> {
    if v.virtual_inheritance {
        if v.sort_inheritance_by_file {
            seq![1u32]
        } else {
            seq![2u32]
        }
    } else {
        Seq::empty()
    }
}

/// The inputs a list of classes folds into a fingerprint, in order.
pub open spec fn classes_hash_inputs(cs: Seq<ClassView>) -> Seq<u32>
    decreases cs.len(),
{
    if cs.len() == 0 {
        Seq::empty()
    } else {
        classes_hash_inputs(cs.drop_last()) + class_hash_inputs(cs.last())
    }
}

/// The inputs a file folds into its fingerprint: the flags' marker, the class
/// count, then each class in declaration order.
pub open spec fn file_hash_inputs(v: DCFileView) -> Seq<u32> {
    inheritance_marker(v) + seq![v.classes.len() as u32] + classes_hash_inputs(v.classes)
}

/// A compiled schema file: its structs, classes and imports, and the table of
/// file-wide field ids.
pub struct DCFile {
    structs: Vec<DCStruct>,
    dclasses: Vec<DClass>,
    imports: Vec<DCImport>,
    field_id_2_field: Vec<FieldLocation>,
    all_object_valid: bool,
    inherited_fields_stale: bool,
    virtual_inheritance: bool,
    sort_inheritance_by_file: bool,
}

impl View for DCFile {
    type V = DCFileView;

    closed spec fn view(&self) -> DCFileView {
        DCFileView {
            structs: self.structs@.map_values(|s: DCStruct| s@),
            classes: self.dclasses@.map_values(|c: DClass| c@),
            imports: self.imports@.map_values(|i: DCImport| i@),
            field_table: self.field_id_2_field@,
            all_object_valid: self.all_object_valid,
            inherited_fields_stale: self.inherited_fields_stale,
            virtual_inheritance: self.virtual_inheritance,
            sort_inheritance_by_file: self.sort_inheritance_by_file,
        }
    }
}

/// An empty file under the given compatibility flags.
pub open spec fn empty_file(virtual_inheritance: bool, sort_inheritance_by_file: bool) -> DCFileView {
    DCFileView {
        structs: Seq::empty(),
        classes: Seq::empty(),
        imports: Seq::empty(),
        field_table: Seq::empty(),
        all_object_valid: true,
        inherited_fields_stale: false,
        virtual_inheritance,
        sort_inheritance_by_file,
    }
}

/// Well-formedness depends only on the classes, the structs and the field table.
proof fn lemma_wf_same_layout(v: DCFileView, w: DCFileView)
    requires
        file_wf(v),
        w.classes == v.classes,
        w.structs == v.structs,
        w.field_table == v.field_table,
    ensures
        file_wf(w),
{
    assert forall|l: FieldLocation| #[trigger] location_valid(w, l) implies field_at(w, l).id
        < w.field_table.len() && w.field_table[field_at(w, l).id as int] == l by {
        assert(location_valid(v, l));
    }
    assert forall|k: int| 0 <= k < w.field_table.len() implies location_valid(
        w,
        #[trigger] w.field_table[k],
    ) && field_at(w, w.field_table[k]).id == k by {
        assert(location_valid(v, v.field_table[k]));
    }
}

/// Adding a field to an owner the file holds keeps the file well formed.
proof fn lemma_with_field_wf(v: DCFileView, o: DCFieldOwner, f: FieldView)
    requires
        file_wf(v),
        owner_valid(v, o),
        owner_fields(v, o).len() <= usize::MAX,
        v.field_table.len() < DC_FIELD_ID_SPACE,
    ensures
        file_wf(with_field(v, o, f)),
{
    let w = with_field(v, o, f);
    let n = owner_fields(v, o).len();
    let new_loc = FieldLocation { owner: o, index: n as usize };
    assert forall|i: int| 0 <= i < w.classes.len() implies #[trigger] w.classes[i].id == i by {
        assert(v.classes[i].id == i);
    }
    assert forall|l: FieldLocation| location_valid(v, l) implies #[trigger] location_valid(w, l)
        && field_at(w, l) == field_at(v, l) by {}
    assert forall|l: FieldLocation| #[trigger] location_valid(w, l) implies field_at(w, l).id
        < w.field_table.len() && w.field_table[field_at(w, l).id as int] == l by {
        if l != new_loc {
            assert(location_valid(v, l));
        }
    }
    assert forall|k: int| 0 <= k < w.field_table.len() implies location_valid(
        w,
        #[trigger] w.field_table[k],
    ) && field_at(w, w.field_table[k]).id == k by {
        if k < v.field_table.len() {
            assert(w.field_table[k] == v.field_table[k]);
            assert(location_valid(v, v.field_table[k]));
        } else {
            assert(w.field_table[k] == new_loc);
            assert(owner_valid(w, o));
            assert(owner_fields(w, o).len() == n + 1);
            assert(field_at(w, new_loc).id == k);
        }
    }
}

/// Adding a class keeps the file well formed while the id spaces last.
proof fn lemma_with_class_wf(v: DCFileView, c: ClassView)
    requires
        file_wf(v),
        v.classes.len() < DC_ID_SPACE,
        v.field_table.len() + c.fields.len() <= DC_FIELD_ID_SPACE,
    ensures
        file_wf(with_class(v, c)),
{
    let w = with_class(v, c);
    let i0 = v.classes.len();
    let base = v.field_table.len();
    assert forall|i: int| 0 <= i < w.classes.len() implies #[trigger] w.classes[i].id == i by {
        if i < i0 {
            assert(v.classes[i].id == i);
        }
    }
    assert forall|l: FieldLocation| location_valid(v, l) implies #[trigger] location_valid(w, l)
        && field_at(w, l) == field_at(v, l) by {}
    assert forall|l: FieldLocation| #[trigger] location_valid(w, l) implies field_at(w, l).id
        < w.field_table.len() && w.field_table[field_at(w, l).id as int] == l by {
        if l.owner != DCFieldOwner::Class(i0 as usize) {
            assert(location_valid(v, l));
        } else {
            let j = l.index as int;
            assert(owner_fields(w, l.owner) == renumbered(c.fields, base));
            assert(field_at(w, l).id == base + j);
            assert(w.field_table[base + j] == owner_locations(l.owner, c.fields.len())[j]);
        }
    }
    assert forall|k: int| 0 <= k < w.field_table.len() implies location_valid(
        w,
        #[trigger] w.field_table[k],
    ) && field_at(w, w.field_table[k]).id == k by {
        if k < base {
            assert(w.field_table[k] == v.field_table[k]);
            assert(location_valid(v, v.field_table[k]));
        } else {
            assert(w.field_table[k] == owner_locations(
                DCFieldOwner::Class(i0 as usize),
                c.fields.len(),
            )[k - base]);
        }
    }
}

/// Adding a struct keeps the file well formed while the field id space lasts.
proof fn lemma_with_struct_wf(v: DCFileView, st: StructView)
    requires
        file_wf(v),
        v.structs.len() <= usize::MAX,
        v.field_table.len() + st.fields.len() <= DC_FIELD_ID_SPACE,
    ensures
        file_wf(with_struct(v, st)),
{
    let w = with_struct(v, st);
    let i0 = v.structs.len();
    let base = v.field_table.len();
    assert forall|i: int| 0 <= i < w.classes.len() implies #[trigger] w.classes[i].id == i by {
        assert(v.classes[i].id == i);
    }
    assert forall|l: FieldLocation| location_valid(v, l) implies #[trigger] location_valid(w, l)
        && field_at(w, l) == field_at(v, l) by {}
    assert forall|l: FieldLocation| #[trigger] location_valid(w, l) implies field_at(w, l).id
        < w.field_table.len() && w.field_table[field_at(w, l).id as int] == l by {
        if l.owner != DCFieldOwner::Struct(i0 as usize) {
            assert(location_valid(v, l));
        } else {
            let j = l.index as int;
            assert(owner_fields(w, l.owner) == renumbered(st.fields, base));
            assert(field_at(w, l).id == base + j);
            assert(w.field_table[base + j] == owner_locations(l.owner, st.fields.len())[j]);
        }
    }
    assert forall|k: int| 0 <= k < w.field_table.len() implies location_valid(
        w,
        #[trigger] w.field_table[k],
    ) && field_at(w, w.field_table[k]).id == k by {
        if k < base {
            assert(w.field_table[k] == v.field_table[k]);
            assert(location_valid(v, v.field_table[k]));
        } else {
            assert(w.field_table[k] == owner_locations(
                DCFieldOwner::Struct(i0 as usize),
                st.fields.len(),
            )[k - base]);
        }
    }
}

/// Gives `fields` the ids that follow the entries of `table`, in order, and
/// records each of them in `table` as living with `owner`.
fn register_fields(table: &mut Vec<FieldLocation>, owner: DCFieldOwner, fields: Vec<DCField>) -> (r:
    Vec<DCField>)
    requires
        old(table)@.len() + fields@.len() <= DC_FIELD_ID_SPACE,
    ensures
        r@.map_values(|f: DCField| f@) == renumbered(
            fields@.map_values(|f: DCField| f@),
            old(table)@.len(),
        ),
        final(table)@ == old(table)@ + owner_locations(owner, fields@.len()),
{
    let ghost fs = fields@.map_values(|f: DCField| f@);
    let base: usize = table.len();
    let n: usize = fields.len();
    // Reverse the fields first, so that taking them back off the end yields
    // them in declaration order without shifting the vector.
    let mut src: Vec<DCField> = fields;
    let mut rest: Vec<DCField> = Vec::new();
    while src.len() > 0
        invariant
            n == fs.len(),
            src@.len() + rest@.len() == n,
            forall|j: int| 0 <= j < src@.len() ==> (#[trigger] src@[j])@ == fs[j],
            forall|j: int| 0 <= j < rest@.len() ==> (#[trigger] rest@[j])@ == fs[n - 1 - j],
        decreases src@.len(),
    {
        let ghost before = src@;
        match src.pop() {
            Some(f) => {
                rest.push(f);
                proof {
                    assert(src@ =~= before.drop_last());
                }
            },
            None => {},
        }
    }
    let mut out: Vec<DCField> = Vec::new();
    let mut k: usize = 0;
    while k < n
        invariant
            k <= n,
            n == fs.len(),
            base == old(table)@.len(),
            base + n <= DC_FIELD_ID_SPACE,
            rest@.len() == n - k,
            forall|j: int| 0 <= j < rest@.len() ==> (#[trigger] rest@[j])@ == fs[n - 1 - j],
            out@.len() == k,
            forall|j: int|
                0 <= j < k ==> (#[trigger] out@[j])@ == (FieldView {
                    id: (base + j) as FieldId,
                    ..fs[j]
                }),
            table@ == old(table)@ + owner_locations(owner, k as nat),
        decreases n - k,
    {
        let ghost before = rest@;
        let ghost out_before = out@;
        let mut f: DCField = rest.pop().unwrap();
        proof {
            assert(f == before.last());
            assert(rest@ =~= before.drop_last());
        }
        f.set_field_id((base + k) as FieldId);
        out.push(f);
        table.push(FieldLocation { owner, index: k });
        proof {
            assert(out@[k as int] == f);
            assert forall|j: int| 0 <= j < k implies (#[trigger] out@[j]) == out_before[j] by {}
            assert(table@ =~= old(table)@ + owner_locations(owner, (k + 1) as nat));
        }
        k = k + 1;
    }
    proof {
        assert(out@.map_values(|f: DCField| f@) =~= renumbered(fs, base as nat));
    }
    out
}

impl DCFile {
    /// Whether the file is well formed.
    pub open spec fn wf(&self) -> bool {
        file_wf(self@)
    }

    /// An empty file under the default compatibility flags.
    pub fn new() -> (r: DCFile)
        ensures
            r@ == empty_file(DC_VIRTUAL_INHERITANCE, DC_SORT_INHERITANCE_BY_FILE),
            r.wf(),
    {
        DCFile::with_flags(DC_VIRTUAL_INHERITANCE, DC_SORT_INHERITANCE_BY_FILE)
    }

    /// An empty file under the given compatibility flags.
    pub fn with_flags(virtual_inheritance: bool, sort_inheritance_by_file: bool) -> (r: DCFile)
        ensures
            r@ == empty_file(virtual_inheritance, sort_inheritance_by_file),
            r.wf(),
    {
        let r = DCFile {
            structs: Vec::new(),
            dclasses: Vec::new(),
            imports: Vec::new(),
            field_id_2_field: Vec::new(),
            all_object_valid: true,
            inherited_fields_stale: false,
            virtual_inheritance,
            sort_inheritance_by_file,
        };
        proof {
            assert(r@.structs =~= Seq::<StructView>::empty());
            assert(r@.classes =~= Seq::<ClassView>::empty());
            assert(r@.imports =~= Seq::<ImportView>::empty());
            assert(r@.field_table =~= Seq::<FieldLocation>::empty());
        }
        r
    }

    /// The fingerprint of the file.
    pub fn get_hash(&self) -> (r: DCFileHash)
        ensures
            r == hash_of(file_hash_inputs(self@)),
    {
        let mut hashgen = DCHashGenerator::new();
        self.generate_hash(&mut hashgen);
        proof {
            assert(hashgen@ =~= file_hash_inputs(self@));
        }
        hashgen.get_hash()
    }

    /// Folds the flags' marker, the class count and each class into `hashgen`.
    pub fn generate_hash(&self, hashgen: &mut DCHashGenerator)
        ensures
            final(hashgen)@ == old(hashgen)@ + file_hash_inputs(self@),
    {
        if self.virtual_inheritance {
            if self.sort_inheritance_by_file {
                hashgen.add_int(1);
            } else {
                hashgen.add_int(2);
            }
        }
        hashgen.add_int(self.dclasses.len() as u32);
        let ghost mid = hashgen@;
        let ghost cs = self@.classes;
        let mut i: usize = 0;
        while i < self.dclasses.len()
            invariant
                i <= self.dclasses@.len(),
                cs == self.dclasses@.map_values(|c: DClass| c@),
                hashgen@ == mid + classes_hash_inputs(cs.subrange(0, i as int)),
            decreases self.dclasses@.len() - i,
        {
            self.dclasses[i].generate_hash(hashgen);
            i = i + 1;
            proof {
                let p = cs.subrange(0, i as int);
                assert(p.drop_last() =~= cs.subrange(0, i - 1));
                assert(hashgen@ =~= mid + classes_hash_inputs(p));
            }
        }
        proof {
            assert(cs.subrange(0, i as int) =~= cs);
            assert(final(hashgen)@ =~= old(hashgen)@ + file_hash_inputs(self@));
        }
    }

    pub fn get_num_imports(&self) -> (r: usize)
        ensures
            r == self@.imports.len(),
    {
        self.imports.len()
    }

    /// The import at `index`.
    pub fn get_python_import(&self, index: usize) -> (r: Option<&DCImport>)
        ensures
            index < self@.imports.len() ==> r is Some && r->Some_0@ == self@.imports[index as int],
            index >= self@.imports.len() ==> r is None,
    {
        if index < self.imports.len() {
            Some(&self.imports[index])
        } else {
            None
        }
    }

    pub fn add_python_import(&mut self, import: DCImport)
        requires
            old(self).wf(),
        ensures
            final(self).wf(),
            final(self)@ == (DCFileView { imports: old(self)@.imports.push(import@), ..old(self)@ }),
    {
        self.imports.push(import);
        proof {
            assert(final(self)@.imports =~= old(self)@.imports.push(import@));
            assert(final(self)@.classes =~= old(self)@.classes);
            assert(final(self)@.structs =~= old(self)@.structs);
            lemma_wf_same_layout(old(self)@, final(self)@);
        }
    }

    pub fn get_num_dclasses(&self) -> (r: usize)
        ensures
            r == self@.classes.len(),
    {
        self.dclasses.len()
    }

    /// The id the next class will take: the number of classes so far, while the
    /// id space lasts.
    pub fn get_next_dclass_id(&self) -> (r: Result<DClassId, DCFileError>)
        requires
            self.wf(),
        ensures
            self@.classes.len() < DC_ID_SPACE ==> r == Ok::<DClassId, DCFileError>(
                self@.classes.len() as DClassId,
            ),
            self@.classes.len() >= DC_ID_SPACE ==> r == Err::<DClassId, DCFileError>(
                DCFileError::IdSpaceExhausted,
            ),
    {
        let n: usize = self.dclasses.len();
        if n >= DC_ID_SPACE {
            return Err(DCFileError::IdSpaceExhausted);
        }
        Ok(n as DClassId)
    }

    /// The class at position `index` in declaration order.
    pub fn get_dclass(&self, index: usize) -> (r: Option<&DClass>)
        ensures
            index < self@.classes.len() ==> r is Some && r->Some_0@ == self@.classes[index as int],
            index >= self@.classes.len() ==> r is None,
    {
        if index < self.dclasses.len() {
            Some(&self.dclasses[index])
        } else {
            None
        }
    }

    /// The class with id `id`.
    pub fn get_dclass_by_id(&self, id: DClassId) -> (r: Option<&DClass>)
        requires
            self.wf(),
        ensures
            (exists|i: int| 0 <= i < self@.classes.len() && self@.classes[i].id == id) ==> r is Some
                && r->Some_0@.id == id && r->Some_0@ == self@.classes[id as int],
            !(exists|i: int| 0 <= i < self@.classes.len() && self@.classes[i].id == id) ==> r is None,
    {
        if (id as usize) < self.dclasses.len() {
            proof {
                assert(self@.classes[id as int].id == id);
            }
            Some(&self.dclasses[id as usize])
        } else {
            None
        }
    }

    /// The first class declared under `name`.
    pub fn get_dclass_by_name(&self, name: &str) -> (r: Option<&DClass>)
        ensures
            match r {
                Some(c) => exists|i: int|
                    0 <= i < self@.classes.len() && c@ == self@.classes[i] && c@.name == name@
                        && forall|j: int| 0 <= j < i ==> self@.classes[j].name != name@,
                None => forall|i: int| 0 <= i < self@.classes.len() ==> self@.classes[i].name != name@,
            },
    {
        let wanted: String = name.to_owned();
        let mut i: usize = 0;
        while i < self.dclasses.len()
            invariant
                i <= self.dclasses@.len(),
                wanted@ == name@,
                forall|j: int| 0 <= j < i ==> self@.classes[j].name != name@,
            decreases self.dclasses@.len() - i,
        {
            if self.dclasses[i].name == wanted {
                proof {
                    assert(self@.classes[i as int] == self.dclasses@[i as int]@);
                }
                return Some(&self.dclasses[i]);
            }
            i = i + 1;
        }
        None
    }

    /// Adds `field` to the class or struct `owner`, giving it the next file-wide
    /// field id, which is returned.
    pub fn add_field(&mut self, owner: DCFieldOwner, field: DCField) -> (r: Result<
        FieldId,
        DCFileError,
    >)
        requires
            old(self).wf(),
        ensures
            final(self).wf(),
            !owner_valid(old(self)@, owner) ==> r == Err::<FieldId, DCFileError>(
                DCFileError::UnknownOwner,
            ) && final(self)@ == old(self)@,
            owner_valid(old(self)@, owner) && old(self)@.field_table.len() >= DC_FIELD_ID_SPACE ==> r
                == Err::<FieldId, DCFileError>(DCFileError::IdSpaceExhausted) && final(self)@
                == old(self)@,
            owner_valid(old(self)@, owner) && old(self)@.field_table.len() < DC_FIELD_ID_SPACE ==> r
                == Ok::<FieldId, DCFileError>(old(self)@.field_table.len() as FieldId)
                && final(self)@ == with_field(old(self)@, owner, field@),
    {
        let next: usize = self.field_id_2_field.len();
        match owner {
            DCFieldOwner::Class(i) => {
                if i >= self.dclasses.len() {
                    return Err(DCFileError::UnknownOwner);
                }
            },
            DCFieldOwner::Struct(i) => {
                if i >= self.structs.len() {
                    return Err(DCFileError::UnknownOwner);
                }
            },
        }
        if next >= DC_FIELD_ID_SPACE {
            return Err(DCFileError::IdSpaceExhausted);
        }
        let ghost v = self@;
        let mut f: DCField = field;
        f.set_field_id(next as FieldId);
        let index: usize;
        match owner {
            DCFieldOwner::Class(i) => {
                let mut c: DClass = self.dclasses.remove(i);
                index = c.fields.len();
                c.add_field(f);
                self.dclasses.insert(i, c);
                proof {
                    assert(self@.classes =~= with_field(v, owner, field@).classes);
                }
            },
            DCFieldOwner::Struct(i) => {
                let mut st: DCStruct = self.structs.remove(i);
                index = st.fields.len();
                st.add_field(f);
                self.structs.insert(i, st);
                proof {
                    assert(self@.structs =~= with_field(v, owner, field@).structs);
                }
            },
        }
        self.field_id_2_field.push(FieldLocation { owner, index });
        self.all_object_valid = false;
        self.inherited_fields_stale = true;
        proof {
            assert(self@.classes =~= with_field(v, owner, field@).classes);
            assert(self@.structs =~= with_field(v, owner, field@).structs);
            assert(self@ =~= with_field(v, owner, field@));
            lemma_with_field_wf(v, owner, field@);
        }
        Ok(next as FieldId)
    }

    /// Adds `dclass` under the next class id, which is returned; its fields take
    /// the next file-wide field ids in order. When either id space would run out,
    /// nothing changes.
    pub fn add_dclass(&mut self, dclass: DClass) -> (r: Result<DClassId, DCFileError>)
        requires
            old(self).wf(),
        ensures
            final(self).wf(),
            old(self)@.classes.len() < DC_ID_SPACE && old(self)@.field_table.len()
                + dclass@.fields.len() <= DC_FIELD_ID_SPACE ==> r == Ok::<DClassId, DCFileError>(
                old(self)@.classes.len() as DClassId,
            ) && final(self)@ == with_class(old(self)@, dclass@),
            !(old(self)@.classes.len() < DC_ID_SPACE && old(self)@.field_table.len()
                + dclass@.fields.len() <= DC_FIELD_ID_SPACE) ==> r == Err::<DClassId, DCFileError>(
                DCFileError::IdSpaceExhausted,
            ) && final(self)@ == old(self)@,
    {
        let id: DClassId = self.get_next_dclass_id()?;
        if dclass.fields.len() > DC_FIELD_ID_SPACE - self.field_id_2_field.len() {
            return Err(DCFileError::IdSpaceExhausted);
        }
        let ghost v = self@;
        let DClass { name, class_id: _, parents, fields } = dclass;
        let fields: Vec<DCField> = register_fields(
            &mut self.field_id_2_field,
            DCFieldOwner::Class(id as usize),
            fields,
        );
        self.dclasses.push(DClass { name, class_id: id, parents, fields });
        self.all_object_valid = false;
        self.inherited_fields_stale = true;
        proof {
            assert(self@.classes =~= with_class(v, dclass@).classes);
            assert(self@ =~= with_class(v, dclass@));
            lemma_with_class_wf(v, dclass@);
        }
        Ok(id)
    }

    /// Adds `strct`; its fields take the next file-wide field ids in order. When
    /// the field id space would run out, nothing changes.
    pub fn add_struct(&mut self, strct: DCStruct) -> (r: Result<(), DCFileError>)
        requires
            old(self).wf(),
        ensures
            final(self).wf(),
            old(self)@.field_table.len() + strct@.fields.len() <= DC_FIELD_ID_SPACE ==> r == Ok::<
                (),
                DCFileError,
            >(()) && final(self)@ == with_struct(old(self)@, strct@),
            old(self)@.field_table.len() + strct@.fields.len() > DC_FIELD_ID_SPACE ==> r == Err::<
                (),
                DCFileError,
            >(DCFileError::IdSpaceExhausted) && final(self)@ == old(self)@,
    {
        if strct.fields.len() > DC_FIELD_ID_SPACE - self.field_id_2_field.len() {
            return Err(DCFileError::IdSpaceExhausted);
        }
        let ghost v = self@;
        let index: usize = self.structs.len();
        let DCStruct { name, fields } = strct;
        let fields: Vec<DCField> = register_fields(
            &mut self.field_id_2_field,
            DCFieldOwner::Struct(index),
            fields,
        );
        self.structs.push(DCStruct { name, fields });
        self.all_object_valid = false;
        self.inherited_fields_stale = true;
        proof {
            assert(self@.structs =~= with_struct(v, strct@).structs);
            assert(self@ =~= with_struct(v, strct@));
            lemma_with_struct_wf(v, strct@);
        }
        Ok(())
    }

    pub fn get_num_structs(&self) -> (r: usize)
        ensures
            r == self@.structs.len(),
    {
        self.structs.len()
    }

    /// The struct at position `index` in declaration order.
    pub fn get_struct(&self, index: usize) -> (r: Option<&DCStruct>)
        ensures
            index < self@.structs.len() ==> r is Some && r->Some_0@ == self@.structs[index as int],
            index >= self@.structs.len() ==> r is None,
    {
        if index < self.structs.len() {
            Some(&self.structs[index])
        } else {
            None
        }
    }
}

/// Field ids are unique across the whole file: two fields at different places,
/// in one owner or in two, never share an id.
pub proof fn lemma_field_ids_unique(v: DCFileView, l1: FieldLocation, l2: FieldLocation)
    requires
        file_wf(v),
        location_valid(v, l1),
        location_valid(v, l2),
        l1 != l2,
    ensures
        field_at(v, l1).id != field_at(v, l2).id,
{
}

/// The fingerprint depends only on the classes and the compatibility flags: two
/// files that agree on them have the same fingerprint.
pub proof fn lemma_hash_deterministic(a: DCFileView, b: DCFileView)
    requires
        a.classes == b.classes,
        a.virtual_inheritance == b.virtual_inheritance,
        a.sort_inheritance_by_file == b.sort_inheritance_by_file,
    ensures
        file_hash_inputs(a) == file_hash_inputs(b),
        hash_of(file_hash_inputs(a)) == hash_of(file_hash_inputs(b)),
{
}

/// The inputs of a list of fields grow by those of a field appended to it.
proof fn lemma_fields_inputs_push(fs: Seq<FieldView>, f: FieldView)
    ensures
        fields_hash_inputs(fs.push(f)).len() == fields_hash_inputs(fs).len() + field_hash_inputs(
            f,
        ).len(),
        field_hash_inputs(f).len() >= 1,
{
    assert(fs.push(f).drop_last() =~= fs);
}

/// Replacing one class by one with longer inputs makes the inputs of the list longer.
proof fn lemma_classes_inputs_grow(cs: Seq<ClassView>, i: int, c: ClassView)
    requires
        0 <= i < cs.len(),
        class_hash_inputs(c).len() > class_hash_inputs(cs[i]).len(),
    ensures
        classes_hash_inputs(cs.update(i, c)).len() > classes_hash_inputs(cs).len(),
    decreases cs.len(),
{
    let ds = cs.update(i, c);
    if i == cs.len() - 1 {
        assert(ds.drop_last() =~= cs.drop_last());
    } else {
        assert(ds.drop_last() =~= cs.drop_last().update(i, c));
        lemma_classes_inputs_grow(cs.drop_last(), i, c);
    }
}

/// Adding a field to a class changes the inputs of the file's fingerprint.
pub proof fn lemma_added_field_changes_hash_inputs(v: DCFileView, i: usize, f: FieldView)
    requires
        i < v.classes.len(),
    ensures
        file_hash_inputs(with_field(v, DCFieldOwner::Class(i), f)) != file_hash_inputs(v),
{
    let w = with_field(v, DCFieldOwner::Class(i), f);
    let c = v.classes[i as int];
    let nf = FieldView { id: v.field_table.len() as FieldId, ..f };
    lemma_fields_inputs_push(c.fields, nf);
    assert(w.classes[i as int].fields == c.fields.push(nf));
    assert(class_hash_inputs(w.classes[i as int]).len() > class_hash_inputs(c).len());
    lemma_classes_inputs_grow(v.classes, i as int, w.classes[i as int]);
    assert(file_hash_inputs(w).len() > file_hash_inputs(v).len());
}

/// Toggling virtual inheritance, with the classes unchanged, changes the inputs
/// of the file's fingerprint.
pub proof fn lemma_inheritance_flag_changes_hash_inputs(v: DCFileView)
    ensures
        file_hash_inputs(DCFileView { virtual_inheritance: !v.virtual_inheritance, ..v })
            != file_hash_inputs(v),
{
    let w = DCFileView { virtual_inheritance: !v.virtual_inheritance, ..v };
    assert(file_hash_inputs(w).len() != file_hash_inputs(v).len());
}

} // verus!
