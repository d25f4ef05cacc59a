//! The material catalog: colors, identifiers, movement rules and the
//! validated registry that maps an identifier to its material.

use vstd::prelude::*;

verus! {

/// An RGB color, one byte per channel.
#[derive(Copy, Clone, Debug, PartialEq, Eq, Structural)]
pub struct MaterialColor {
    pub r: u8,
    pub g: u8,
    pub b: u8,
}

/// Why a text is no color.
#[derive(Copy, Clone, Debug, PartialEq, Eq, Structural)]
pub enum ColorError {
    /// The text is empty.
    Empty,
    /// The text holds no digit, or something that is no hexadecimal digit.
    InvalidDigit,
    /// The number does not fit in 32 bits.
    TooLarge,
}

/// The value of a hexadecimal digit in ASCII, upper or lower case.
pub open spec fn hex_digit(byte: u8) -> Option<int> {
    if 0x30 <= byte <= 0x39 {
        Some(byte - 0x30)
    } else if 0x41 <= byte <= 0x46 {
        Some(byte - 0x41 + 10)
    } else if 0x61 <= byte <= 0x66 {
        Some(byte - 0x61 + 10)
    } else {
        None
    }
}

/// The number that `digits` write in base 16. A byte that is no digit
/// counts as zero.
pub open spec fn hex_value(digits: Seq<u8>) -> int
    decreases digits.len(),
{
    if digits.len() == 0 {
        0
    } else {
        16 * hex_value(digits.drop_last()) + match hex_digit(digits.last()) {
            Some(digit) => digit,
            None => 0,
        }
    }
}

/// The digits of a color text: the text without one leading `+`.
pub open spec fn hex_digits(text: Seq<u8>) -> Seq<u8> {
    if text.len() > 0 && text[0] == 0x2B {
        text.subrange(1, text.len() as int)
    } else {
        text
    }
}

/// Reading `digits` from the left fails at `k`: the byte there is no
/// digit, or the number read so far no longer fits in 32 bits.
pub open spec fn fails_at(digits: Seq<u8>, k: int) -> bool {
    hex_digit(digits[k]) is None || hex_value(digits.take(k + 1)) > u32::MAX
}

/// `k` is the first position at which reading `digits` fails.
pub open spec fn first_failure(digits: Seq<u8>, k: int) -> bool {
    &&& 0 <= k < digits.len()
    &&& fails_at(digits, k)
    &&& forall|j: int| 0 <= j < k ==> !fails_at(digits, j)
}

/// The number of a longer row of digits is no smaller than that of its
/// beginning.
pub proof fn lemma_hex_value_grows(digits: Seq<u8>, k: int)
    requires
        0 <= k <= digits.len(),
    ensures
        0 <= hex_value(digits.take(k)) <= hex_value(digits),
    decreases digits.len(),
{
    if digits.len() == 0 {
        assert(digits.take(k) =~= digits);
    } else if k == digits.len() {
        assert(digits.take(k) =~= digits);
        lemma_hex_value_grows(digits.drop_last(), k - 1);
    } else {
        assert(digits.drop_last().take(k) =~= digits.take(k));
        lemma_hex_value_grows(digits.drop_last(), k);
    }
}

/// One more digit multiplies the number by 16 and adds the digit.
pub proof fn lemma_hex_value_push(digits: Seq<u8>, byte: u8)
    ensures
        hex_value(digits.push(byte)) == 16 * hex_value(digits) + match hex_digit(byte) {
            Some(digit) => digit,
            None => 0,
        },
{
    assert(digits.push(byte).drop_last() =~= digits);
}

/// Digits that are all hexadecimal and write a number of 32 bits are read
/// without a failure.
pub proof fn lemma_hex_digits_that_fit(digits: Seq<u8>)
    requires
        forall|k: int| 0 <= k < digits.len() ==> hex_digit(#[trigger] digits[k]) is Some,
        hex_value(digits) <= u32::MAX,
    ensures
        forall|k: int| !first_failure(digits, k),
{
    assert forall|k: int| !first_failure(digits, k) by {
        if 0 <= k < digits.len() {
            lemma_hex_value_grows(digits, k + 1);
        }
    }
}

/// The hexadecimal digit, in upper case ASCII, of a number below 16.
pub open spec fn hex_char(nibble: int) -> u8 {
    if nibble < 10 {
        (0x30 + nibble) as u8
    } else {
        (0x41 + nibble - 10) as u8
    }
}

/// The digit of a number below 16 stands for that number, and is no sign.
pub proof fn lemma_hex_char(nibble: int)
    requires
        0 <= nibble < 16,
    ensures
        hex_digit(hex_char(nibble)) == Some(nibble),
        hex_char(nibble) != 0x2B,
{
}

/// The number that six digits write.
pub proof fn lemma_hex_value_of_six(text: Seq<u8>)
    requires
        text.len() == 6,
        forall|k: int| 0 <= k < 6 ==> hex_digit(#[trigger] text[k]) is Some,
    ensures
        hex_value(text) == 0x10_0000 * hex_digit(text[0])->Some_0 + 0x1_0000 * hex_digit(
            text[1],
        )->Some_0 + 0x1000 * hex_digit(text[2])->Some_0 + 0x100 * hex_digit(text[3])->Some_0 + 0x10
            * hex_digit(text[4])->Some_0 + hex_digit(text[5])->Some_0,
{
    let none = Seq::<u8>::empty();
    let one = none.push(text[0]);
    let two = one.push(text[1]);
    let three = two.push(text[2]);
    let four = three.push(text[3]);
    let five = four.push(text[4]);
    assert(five.push(text[5]) =~= text);
    lemma_hex_value_push(none, text[0]);
    lemma_hex_value_push(one, text[1]);
    lemma_hex_value_push(two, text[2]);
    lemma_hex_value_push(three, text[3]);
    lemma_hex_value_push(four, text[4]);
    lemma_hex_value_push(five, text[5]);
}

/// The channels of the number `0xRRGGBB` are `RR`, `GG` and `BB`.
pub proof fn lemma_channels_of_number(r: int, g: int, b: int)
    requires
        0 <= r < 0x100,
        0 <= g < 0x100,
        0 <= b < 0x100,
    ensures
        ((r * 0x1_0000 + g * 0x100 + b) / 0x1_0000) % 0x100 == r,
        ((r * 0x1_0000 + g * 0x100 + b) / 0x100) % 0x100 == g,
        (r * 0x1_0000 + g * 0x100 + b) % 0x100 == b,
{
}

impl MaterialColor {
    /// What a text reads as: the color that its digits write, or the error
    /// of the first byte at which reading fails.
    pub open spec fn parse(text: Seq<u8>) -> Result<MaterialColor, ColorError> {
        let digits = hex_digits(text);
        if text.len() == 0 {
            Err(ColorError::Empty)
        } else if digits.len() == 0 {
            Err(ColorError::InvalidDigit)
        } else if exists|k: int| first_failure(digits, k) {
            if hex_digit(digits[choose|k: int| first_failure(digits, k)]) is None {
                Err(ColorError::InvalidDigit)
            } else {
                Err(ColorError::TooLarge)
            }
        } else {
            Ok(Self::from_number(hex_value(digits)))
        }
    }

    /// The six hexadecimal digits of the color, two for each channel, in
    /// upper case ASCII.
    pub open spec fn hex_text(self) -> Seq<u8> {
        seq![
            hex_char(self.r as int / 16),
            hex_char(self.r as int % 16),
            hex_char(self.g as int / 16),
            hex_char(self.g as int % 16),
            hex_char(self.b as int / 16),
            hex_char(self.b as int % 16),
        ]
    }

    /// The color that the number `0xRRGGBB` stands for; what lies above
    /// the low 24 bits does not count.
    pub open spec fn from_number(hex: int) -> MaterialColor {
        MaterialColor {
            r: ((hex / 0x1_0000) % 0x100) as u8,
            g: ((hex / 0x100) % 0x100) as u8,
            b: (hex % 0x100) as u8,
        }
    }

    /// Splits a `0xRRGGBB` number into its channels; bits above the low 24
    /// are ignored.
    pub fn new(hex: u32) -> (color: Self)
        ensures
            color == Self::from_number(hex as int),
    {
        assert((hex & 0xFF) == hex % 0x100) by (bit_vector);
        assert(((hex >> 8) & 0xFF) == (hex / 0x100) % 0x100) by (bit_vector);
        assert(((hex >> 16) & 0xFF) == (hex / 0x1_0000) % 0x100) by (bit_vector);
        let b: u8 = (hex & 0xFF) as u8;
        let g: u8 = ((hex >> 8) & 0xFF) as u8;
        let r: u8 = ((hex >> 16) & 0xFF) as u8;
        Self { r, g, b }
    }

    /// A color is read back from its own six digits.
    pub proof fn lemma_hex_text_reads_back(self)
        ensures
            Self::parse(self.hex_text()) == Ok::<MaterialColor, ColorError>(self),
            hex_value(self.hex_text()) == self.r * 0x1_0000 + self.g * 0x100 + self.b,
    {
        let text = self.hex_text();
        lemma_hex_char(self.r as int / 16);
        lemma_hex_char(self.r as int % 16);
        lemma_hex_char(self.g as int / 16);
        lemma_hex_char(self.g as int % 16);
        lemma_hex_char(self.b as int / 16);
        lemma_hex_char(self.b as int % 16);
        lemma_hex_value_of_six(text);
        assert(hex_value(text) == self.r * 0x1_0000 + self.g * 0x100 + self.b);
        assert(hex_digits(text) =~= text);
        lemma_hex_digits_that_fit(text);
        lemma_channels_of_number(self.r as int, self.g as int, self.b as int);
    }

    /// The hexadecimal digit, in upper case ASCII, of a number below 16.
    fn digit_of(nibble: u8) -> (byte: u8)
        requires
            nibble < 16,
        ensures
            byte == hex_char(nibble as int),
            hex_digit(byte) == Some(nibble as int),
    {
        if nibble < 10 {
            0x30 + nibble
        } else {
            0x41 + (nibble - 10)
        }
    }

    /// Writes the color as six hexadecimal digits in upper case ASCII, two
    /// for each channel, as in `C2B280`. What is written reads back as the
    /// same color.
    pub fn to_hex(&self) -> (text: Vec<u8>)
        ensures
            text@ == self.hex_text(),
            Self::parse(text@) == Ok::<MaterialColor, ColorError>(*self),
    {
        let mut text: Vec<u8> = Vec::new();
        text.push(Self::digit_of(self.r / 16));
        text.push(Self::digit_of(self.r % 16));
        text.push(Self::digit_of(self.g / 16));
        text.push(Self::digit_of(self.g % 16));
        text.push(Self::digit_of(self.b / 16));
        text.push(Self::digit_of(self.b % 16));
        proof {
            assert(text@ =~= self.hex_text());
            self.lemma_hex_text_reads_back();
        }
        text
    }

    /// Reads a color from hexadecimal digits in ASCII, as in `C2B280`. The
    /// digits may follow one `+`, may be of either case and of any number,
    /// leading zeros included, as long as the number fits in 32 bits. The
    /// text is read from the left, and the first byte at which reading
    /// fails decides the error.
    pub fn from_hex(text: &[u8]) -> (read: Result<MaterialColor, ColorError>)
        ensures
            read == Self::parse(text@),
            read is Ok <==> {
                &&& hex_digits(text@).len() > 0
                &&& forall|k: int|
                    0 <= k < hex_digits(text@).len() ==> hex_digit(#[trigger] hex_digits(text@)[k]) is Some
                &&& hex_value(hex_digits(text@)) <= u32::MAX
            },
            match read {
                Ok(color) => {
                    &&& hex_digits(text@).len() > 0
                    &&& forall|k: int|
                        0 <= k < hex_digits(text@).len() ==> hex_digit(#[trigger] hex_digits(text@)[k]) is Some
                    &&& hex_value(hex_digits(text@)) <= u32::MAX
                    &&& color == Self::from_number(hex_value(hex_digits(text@)))
                },
                Err(ColorError::Empty) => text@.len() == 0,
                Err(ColorError::InvalidDigit) => text@.len() > 0 && (hex_digits(text@).len() == 0 || exists|
                    k: int,
                |
                    #[trigger] first_failure(hex_digits(text@), k) && hex_digit(hex_digits(text@)[k]) is None),
                Err(ColorError::TooLarge) => exists|k: int|
                    #[trigger] first_failure(hex_digits(text@), k) && hex_digit(hex_digits(text@)[k]) is Some,
            },
    {
        let length: usize = text.len();
        if length == 0 {
            return Err(ColorError::Empty);
        }
        let start: usize = if text[0] == 0x2B {
            1
        } else {
            0
        };
        let ghost digits = hex_digits(text@);
        if start == length {
            return Err(ColorError::InvalidDigit);
        }
        let mut number: u32 = 0;
        let mut i: usize = start;
        while i < length
            invariant
                length == text@.len(),
                start <= i <= length,
                digits == hex_digits(text@),
                digits.len() == length - start,
                forall|k: int| 0 <= k < digits.len() ==> #[trigger] digits[k] == text@[start + k],
                forall|k: int| 0 <= k < i - start ==> !fails_at(digits, k),
                number == hex_value(digits.take(i - start)),
            decreases length - i,
        {
            let ghost k: int = i - start;
            let byte: u8 = text[i];
            let digit: u32 = if 0x30 <= byte && byte <= 0x39 {
                (byte - 0x30) as u32
            } else if 0x41 <= byte && byte <= 0x46 {
                (byte - 0x41 + 10) as u32
            } else if 0x61 <= byte && byte <= 0x66 {
                (byte - 0x61 + 10) as u32
            } else {
                assert(first_failure(digits, k));
                assert(hex_digit(digits[k]) is None);
                return Err(ColorError::InvalidDigit);
            };
            assert(digits.take(k + 1).drop_last() =~= digits.take(k));
            assert(hex_value(digits.take(k + 1)) == 16 * number + digit);
            if number > (u32::MAX - digit) / 16 {
                assert(first_failure(digits, k));
                proof {
                    lemma_hex_value_grows(digits, k + 1);
                }
                return Err(ColorError::TooLarge);
            }
            number = 16 * number + digit;
            i += 1;
        }
        proof {
            assert(digits.take(digits.len() as int) =~= digits);
            assert forall|k: int| 0 <= k < digits.len() implies hex_digit(#[trigger] digits[k]) is Some by {
                assert(!fails_at(digits, k));
            }
        }
        Ok(MaterialColor::new(number))
    }
}

/// The identity of a material: the catalog's key and the tag a grid cell
/// carries for its occupant.
#[derive(Copy, Clone, Debug, Hash, PartialEq, Eq, Structural)]
pub struct MaterialId(pub u8);

/// A relative offset from a cell, in rows and columns.
#[derive(Copy, Clone, Debug, PartialEq, Eq, Structural)]
pub struct IndexShift {
    pub row: i64,
    pub column: i64,
}

/// What a rule does to the occupant of the cell it fires for.
#[derive(Copy, Clone, Debug, PartialEq, Eq, Structural)]
pub enum Movement {
    /// The occupant stays where it is.
    Stay,
    /// The occupant leaves its cell and appears at the shifted cell.
    Move(IndexShift),
    /// The occupant appears at the shifted cell and also stays in its own.
    Copy(IndexShift),
}

/// A movement together with the neighbourhood it needs: every `if_empty`
/// shift must point at an empty cell, every `if_occupied` shift at a cell
/// that holds another material.
#[derive(Clone, Debug)]
pub struct MovementRule {
    pub movement: Movement,
    pub if_empty: Vec<IndexShift>,
    pub if_occupied: Vec<IndexShift>,
}

/// One material: its identity, how it is shown and selected, and its rules
/// in order of precedence.
#[derive(Clone, Debug)]
pub struct Material {
    pub id: MaterialId,
    pub name: String,
    pub rules: Vec<MovementRule>,
    pub color: MaterialColor,
    pub key: String,
}

/// Why a list of materials cannot serve as a catalog.
#[derive(Copy, Clone, Debug, PartialEq, Eq, Structural)]
pub enum CatalogError {
    /// The list holds no material.
    Empty,
    /// The identifier occurs on more than one material.
    DuplicateId(MaterialId),
}

/// No two entries share an identifier.
pub open spec fn unique_ids(entries: Seq<Material>) -> bool {
    forall|i: int, j: int|
        0 <= i < j < entries.len() ==> (#[trigger] entries[i]).id != (#[trigger] entries[j]).id
}

/// The entry at `j` repeats the identifier of an earlier entry.
pub open spec fn repeats_at(entries: Seq<Material>, j: int) -> bool {
    exists|i: int| 0 <= i < j && (#[trigger] entries[i]).id == entries[j].id
}

/// The settings of the board that the materials are shown on.
#[derive(Copy, Clone, Debug, PartialEq, Eq, Structural)]
pub struct BoardSettings {
    pub background: MaterialColor,
    pub view_width_px: u32,
    pub view_height_px: u32,
    pub grid_rows: u32,
    pub grid_columns: u32,
    pub brush_radius: u8,
}

/// The registry of materials, with the settings of the board they are
/// shown on.
#[derive(Debug)]
pub struct Materials {
    materials: Vec<Material>,
    settings: BoardSettings,
}

impl Materials {
    /// The materials of the catalog, in the order they were given.
    pub closed spec fn entries(&self) -> Seq<Material> {
        self.materials@
    }

    /// The settings the catalog was built with.
    pub closed spec fn board(&self) -> BoardSettings {
        self.settings
    }

    /// A catalog holds at least one material and no identifier twice.
    pub open spec fn wf(&self) -> bool {
        &&& self.entries().len() > 0
        &&& unique_ids(self.entries())
    }

    /// Some material of the catalog carries `id`.
    pub open spec fn contains(&self, id: MaterialId) -> bool {
        exists|i: int| 0 <= i < self.entries().len() && (#[trigger] self.entries()[i]).id == id
    }

    /// The position of the material that carries `id`.
    pub open spec fn index_of(&self, id: MaterialId) -> int {
        choose|i: int| 0 <= i < self.entries().len() && (#[trigger] self.entries()[i]).id == id
    }

    /// The material that carries `id`.
    pub open spec fn entry(&self, id: MaterialId) -> Material {
        self.entries()[self.index_of(id)]
    }

    /// The rules of the material that carries `id`, in order of precedence.
    pub open spec fn rules_of(&self, id: MaterialId) -> Seq<MovementRule> {
        self.entry(id).rules@
    }

    /// The entry at `i` is bound to `key`, and no entry before it is.
    pub open spec fn is_first_bound(&self, i: int, key: Seq<char>) -> bool {
        &&& 0 <= i < self.entries().len()
        &&& self.entries()[i].key@ == key
        &&& forall|k: int| 0 <= k < i ==> (#[trigger] self.entries()[k]).key@ != key
    }

    /// The identifier of the first material that is bound to `key`, if any
    /// is.
    pub open spec fn id_of_key(&self, key: Seq<char>) -> Option<MaterialId> {
        if exists|i: int| self.is_first_bound(i, key) {
            Some(self.entries()[choose|i: int| self.is_first_bound(i, key)].id)
        } else {
            None
        }
    }

    /// The first entry bound to a key is the one that the key selects, and
    /// what a key selects is a material of the catalog.
    pub proof fn lemma_first_bound(&self, i: int, key: Seq<char>)
        requires
            self.is_first_bound(i, key),
        ensures
            self.id_of_key(key) == Some(self.entries()[i].id),
            self.contains(self.entries()[i].id),
    {
        let chosen: int = choose|k: int| self.is_first_bound(k, key);
        assert(self.is_first_bound(chosen, key));
        if chosen < i {
            assert(self.entries()[chosen].key@ != key);
        } else if i < chosen {
            assert(self.entries()[i].key@ != key);
        }
    }

    /// In a well-formed catalog an identifier names one entry only.
    pub proof fn lemma_entry_at(&self, i: int)
        requires
            self.wf(),
            0 <= i < self.entries().len(),
        ensures
            self.contains(self.entries()[i].id),
            self.index_of(self.entries()[i].id) == i,
            self.entry(self.entries()[i].id) == self.entries()[i],
    {
        let id = self.entries()[i].id;
        let j = self.index_of(id);
        assert(0 <= j < self.entries().len() && self.entries()[j].id == id);
        if j < i {
            assert(self.entries()[j].id != self.entries()[i].id);
        } else if i < j {
            assert(self.entries()[i].id != self.entries()[j].id);
        }
    }

    /// Builds a catalog from `materials`, or says why they cannot form one:
    /// an empty list is rejected, and so is a list in which an identifier
    /// occurs twice, with the identifier of the first entry that repeats an
    /// earlier one.
    pub fn new(materials: Vec<Material>, settings: BoardSettings) -> (made: Result<
        Materials,
        CatalogError,
    >)
        ensures
            made is Ok <==> materials@.len() > 0 && unique_ids(materials@),
            made == Err::<Materials, CatalogError>(CatalogError::Empty) <==> materials@.len() == 0,
            match made {
                Ok(catalog) => {
                    &&& materials@.len() > 0
                    &&& unique_ids(materials@)
                    &&& catalog.wf()
                    &&& catalog.entries() == materials@
                    &&& catalog.board() == settings
                },
                Err(CatalogError::Empty) => materials@.len() == 0,
                Err(CatalogError::DuplicateId(id)) => exists|j: int|
                    {
                        &&& 0 <= j < materials@.len()
                        &&& #[trigger] repeats_at(materials@, j)
                        &&& forall|k: int| 0 <= k < j ==> !repeats_at(materials@, k)
                        &&& materials@[j].id == id
                    },
            },
    {
        let count = materials.len();
        if count == 0 {
            return Err(CatalogError::Empty);
        }
        let mut j: usize = 0;
        while j < count
            invariant
                count == materials@.len(),
                0 <= j <= count,
                forall|k: int| 0 <= k < j ==> !repeats_at(materials@, k),
            decreases count - j,
        {
            let mut i: usize = 0;
            while i < j
                invariant
                    count == materials@.len(),
                    0 <= i <= j < count,
                    forall|k: int| 0 <= k < j ==> !repeats_at(materials@, k),
                    forall|a: int| 0 <= a < i ==> (#[trigger] materials@[a]).id != materials@[j as int].id,
                decreases j - i,
            {
                if materials[i].id == materials[j].id {
                    assert(materials@[i as int].id == materials@[j as int].id);
                    assert(repeats_at(materials@, j as int));
                    return Err(CatalogError::DuplicateId(materials[j].id));
                }
                i += 1;
            }
            j += 1;
        }
        assert(unique_ids(materials@)) by {
            assert forall|a: int, b: int| 0 <= a < b < materials@.len() implies (
            #[trigger] materials@[a]).id != (#[trigger] materials@[b]).id by {
                assert(!repeats_at(materials@, b));
            }
        }
        Ok(Materials { materials, settings })
    }

    /// The settings the catalog was built with.
    pub fn settings(&self) -> (settings: BoardSettings)
        ensures
            settings == self.board(),
    {
        self.settings
    }

    /// The materials of the catalog, in the order they were given.
    pub fn list(&self) -> (materials: &Vec<Material>)
        ensures
            materials@ == self.entries(),
    {
        &self.materials
    }

    /// Whether some material of the catalog carries `id`.
    pub fn contains_id(&self, id: MaterialId) -> (found: bool)
        ensures
            found == self.contains(id),
    {
        let mut i: usize = 0;
        while i < self.materials.len()
            invariant
                0 <= i <= self.materials@.len(),
                forall|k: int| 0 <= k < i ==> (#[trigger] self.materials@[k]).id != id,
            decreases self.materials@.len() - i,
        {
            if self.materials[i].id == id {
                assert(self.entries()[i as int].id == id);
                return true;
            }
            i += 1;
        }
        false
    }

    /// The color to show for a cell: the occupant's, or the background's
    /// where the cell is empty.
    pub fn get_color(&self, cell_value: Option<MaterialId>) -> (color: MaterialColor)
        requires
            self.wf(),
            cell_value matches Some(id) ==> self.contains(id),
        ensures
            color == match cell_value {
                Some(id) => self.entry(id).color,
                None => self.board().background,
            },
    {
        match cell_value {
            Some(id) => self.get_by_id(id).color,
            None => self.settings.background,
        }
    }

    /// The name to show for a cell's occupant, or `"Eraser"` where there is
    /// none.
    pub fn get_name(&self, cell_value: Option<MaterialId>) -> (name: &str)
        requires
            self.wf(),
            cell_value matches Some(id) ==> self.contains(id),
        ensures
            name@ == match cell_value {
                Some(id) => self.entry(id).name@,
                None => "Eraser"@,
            },
    {
        match cell_value {
            Some(id) => self.get_by_id(id).name.as_str(),
            None => "Eraser",
        }
    }

    /// The rules of the material that carries `id`, in order of precedence.
    pub fn get_rules(&self, id: MaterialId) -> (rules: &Vec<MovementRule>)
        requires
            self.wf(),
            self.contains(id),
        ensures
            *rules == self.entry(id).rules,
            rules@ == self.rules_of(id),
    {
        &self.get_by_id(id).rules
    }

    /// The material that carries `id`. The entry at position `id` is tried
    /// first, then the list is searched from the front.
    fn get_by_id(&self, id: MaterialId) -> (material: &Material)
        requires
            self.wf(),
            self.contains(id),
        ensures
            *material == self.entry(id),
            material.id == id,
    {
        let direct = id.0 as usize;
        if direct < self.materials.len() && self.materials[direct].id == id {
            proof {
                self.lemma_entry_at(direct as int);
            }
            return &self.materials[direct];
        }
        let mut i: usize = 0;
        while self.materials[i].id != id
            invariant
                self.wf(),
                0 <= i <= self.index_of(id) < self.materials@.len() <= usize::MAX,
                self.materials@[self.index_of(id)].id == id,
            decreases self.materials@.len() - i,
        {
            i += 1;
        }
        proof {
            self.lemma_entry_at(i as int);
        }
        &self.materials[i]
    }

    /// The identifier of the first material that is bound to `key`, if any
    /// is.
    pub fn get_id_by_key(&self, key: &str) -> (found: Option<MaterialId>)
        ensures
            found == self.id_of_key(key@),
            found matches Some(id) ==> self.contains(id),
            match found {
                Some(id) => exists|i: int|
                    {
                        &&& 0 <= i < self.entries().len()
                        &&& (#[trigger] self.entries()[i]).key@ == key@
                        &&& forall|k: int| 0 <= k < i ==> (#[trigger] self.entries()[k]).key@ != key@
                        &&& self.entries()[i].id == id
                    },
                None => forall|i: int|
                    0 <= i < self.entries().len() ==> (#[trigger] self.entries()[i]).key@ != key@,
            },
    {
        let wanted = key.to_owned();
        let mut i: usize = 0;
        while i < self.materials.len()
            invariant
                wanted@ == key@,
                0 <= i <= self.materials@.len(),
                forall|k: int| 0 <= k < i ==> (#[trigger] self.materials@[k]).key@ != key@,
            decreases self.materials@.len() - i,
        {
            if self.materials[i].key == wanted {
                assert(self.is_first_bound(i as int, key@));
                proof {
                    self.lemma_first_bound(i as int, key@);
                }
                return Some(self.materials[i].id);
            }
            i += 1;
        }
        assert(self.id_of_key(key@) is None) by {
            if exists|i: int| self.is_first_bound(i, key@) {
                let i: int = choose|i: int| self.is_first_bound(i, key@);
                assert(self.entries()[i].key@ == key@);
            }
        }
        None
    }
}

} // verus!
