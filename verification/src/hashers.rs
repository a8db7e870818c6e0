//! The magic numbers of the rook and bishop tables: for each square the mask of blockers
//! that matter, the magic multiplier and the shift.
use crate::magic_bitboards::MagicHasher;
use vstd::prelude::*;

verus! {

/// The rook hashers' masks of the blockers that matter, square by square.
pub const ROOK_PREMASKS: [u64; 64] = [
    282578800148862u64, 565157600297596u64, 1130315200595066u64, 2260630401190006u64,
    4521260802379886u64, 9042521604759646u64, 18085043209519166u64, 36170086419038334u64,
    282578800180736u64, 565157600328704u64, 1130315200625152u64, 2260630401218048u64,
    4521260802403840u64, 9042521604775424u64, 18085043209518592u64, 36170086419037696u64,
    282578808340736u64, 565157608292864u64, 1130315208328192u64, 2260630408398848u64,
    4521260808540160u64, 9042521608822784u64, 18085043209388032u64, 36170086418907136u64,
    282580897300736u64, 565159647117824u64, 1130317180306432u64, 2260632246683648u64,
    4521262379438080u64, 9042522644946944u64, 18085043175964672u64, 36170086385483776u64,
    283115671060736u64, 565681586307584u64, 1130822006735872u64, 2261102847592448u64,
    4521664529305600u64, 9042787892731904u64, 18085034619584512u64, 36170077829103616u64,
    420017753620736u64, 699298018886144u64, 1260057572672512u64, 2381576680245248u64,
    4624614895390720u64, 9110691325681664u64, 18082844186263552u64, 36167887395782656u64,
    35466950888980736u64, 34905104758997504u64, 34344362452452352u64, 33222877839362048u64,
    30979908613181440u64, 26493970160820224u64, 17522093256097792u64, 35607136465616896u64,
    9079539427579068672u64, 8935706818303361536u64, 8792156787827803136u64, 8505056726876686336u64,
    7930856604974452736u64, 6782456361169985536u64, 4485655873561051136u64, 9115426935197958144u64,
];

/// The rook hashers' magic multipliers, square by square.
pub const ROOK_MAGICS: [u64; 64] = [
    17320757513885329380u64, 14040013259316833648u64, 3390951326127643456u64, 11528907474292928376u64,
    14686482375561331759u64, 5604719001789413378u64, 8699149831850574947u64, 11047324417693582315u64,
    6756738628415217918u64, 18033419929655826498u64, 9483455482326223381u64, 9547527235827710013u64,
    13418950453300131408u64, 3446062961240019680u64, 14228286600742362156u64, 11613958831604768422u64,
    16949634225932225271u64, 16391336522771540585u64, 15860538741817720403u64, 18439371588346071623u64,
    4337493140497213842u64, 9940814090578226623u64, 6646237669503780903u64, 18113214599986771480u64,
    871950246499151818u64, 3791983435856191685u64, 5458678415099539004u64, 8294850406147807645u64,
    6839344473795618220u64, 9478627716812156995u64, 5894738435104472955u64, 13490913200405914368u64,
    1415705587904296677u64, 14030862133726338005u64, 8441441463197664133u64, 281260604241814817u64,
    10997759758892807708u64, 3076227511496689869u64, 933808207862699571u64, 9560673346762113188u64,
    8636980977133609028u64, 11970852963020025804u64, 10787257181337051132u64, 7863069245169174815u64,
    9043476030285676862u64, 15883695470757689635u64, 9767803506355746148u64, 3264637091039282857u64,
    5130866629160724224u64, 2258352379091419648u64, 16861469456374040064u64, 13051431471936847360u64,
    7359965909865684480u64, 9376494039985064992u64, 13059653904366572544u64, 16043230365545760256u64,
    6124895067340646206u64, 16068843261420781586u64, 16104869779769095846u64, 405323660211987778u64,
    16380155655305053222u64, 2374564289869517618u64, 3796534201742586620u64, 9384651753964437902u64,
];

/// The rook hashers' shifts, square by square.
pub const ROOK_SHIFTS: [u8; 64] = [
    51u8, 52u8, 52u8, 52u8, 52u8, 52u8, 52u8, 51u8, 52u8, 53u8, 53u8, 53u8, 53u8, 53u8, 53u8, 52u8,
    52u8, 53u8, 53u8, 53u8, 53u8, 53u8, 53u8, 52u8, 52u8, 53u8, 53u8, 53u8, 53u8, 53u8, 53u8, 52u8,
    52u8, 53u8, 53u8, 53u8, 53u8, 53u8, 53u8, 52u8, 52u8, 53u8, 53u8, 53u8, 53u8, 53u8, 53u8, 52u8,
    53u8, 54u8, 54u8, 54u8, 54u8, 54u8, 54u8, 53u8, 52u8, 53u8, 53u8, 53u8, 53u8, 52u8, 53u8, 52u8,
];

/// The bishop hashers' masks of the blockers that matter, square by square.
pub const BISHOP_PREMASKS: [u64; 64] = [
    18049651735527936u64, 70506452091904u64, 275415828992u64, 1075975168u64,
    38021120u64, 8657588224u64, 2216338399232u64, 567382630219776u64,
    9024825867763712u64, 18049651735527424u64, 70506452221952u64, 275449643008u64,
    9733406720u64, 2216342585344u64, 567382630203392u64, 1134765260406784u64,
    4512412933816832u64, 9024825867633664u64, 18049651768822272u64, 70515108615168u64,
    2491752130560u64, 567383701868544u64, 1134765256220672u64, 2269530512441344u64,
    2256206450263040u64, 4512412900526080u64, 9024834391117824u64, 18051867805491712u64,
    637888545440768u64, 1135039602493440u64, 2269529440784384u64, 4539058881568768u64,
    1128098963916800u64, 2256197927833600u64, 4514594912477184u64, 9592139778506752u64,
    19184279556981248u64, 2339762086609920u64, 4538784537380864u64, 9077569074761728u64,
    562958610993152u64, 1125917221986304u64, 2814792987328512u64, 5629586008178688u64,
    11259172008099840u64, 22518341868716544u64, 9007336962655232u64, 18014673925310464u64,
    2216338399232u64, 4432676798464u64, 11064376819712u64, 22137335185408u64,
    44272556441600u64, 87995357200384u64, 35253226045952u64, 70506452091904u64,
    567382630219776u64, 1134765260406784u64, 2832480465846272u64, 5667157807464448u64,
    11333774449049600u64, 22526811443298304u64, 9024825867763712u64, 18049651735527936u64,
];

/// The bishop hashers' magic multipliers, square by square.
pub const BISHOP_MAGICS: [u64; 64] = [
    15514742657465454785u64, 5183814800573725054u64, 14147575972036883382u64, 3731883656568028139u64,
    16545149479289191316u64, 2919970941078668916u64, 1023205561886723840u64, 12204004787589742586u64,
    8412599212074082299u64, 7683730002545339658u64, 3415453249314626947u64, 15076542518991174981u64,
    12337284744962599565u64, 1327615829094212456u64, 13989988554989010892u64, 3860021294669250451u64,
    15717594500210331634u64, 12290341115420617090u64, 12684036716520718090u64, 8236657713472324044u64,
    6271193209804237111u64, 6850048220029643605u64, 13989249352649961536u64, 14305973585720583431u64,
    11433603480215797923u64, 12489756278438849945u64, 5543620558769898231u64, 4722274408389847895u64,
    98419900671290694u64, 5154016159006121596u64, 1237896659479165654u64, 2010400308935509369u64,
    6233328493871812943u64, 3911460636118419064u64, 1838752725653819537u64, 18299583923421775199u64,
    18189865416450162156u64, 12964092639603717673u64, 3759417851011563838u64, 2277910665398892349u64,
    7043520842669888870u64, 3558415597832913551u64, 7058068592254358738u64, 1364250042772074115u64,
    15571108784841172041u64, 7623771908489059710u64, 13510660098533423299u64, 5395272623407267619u64,
    6235232151113953925u64, 3047482816036424470u64, 12838045819297196834u64, 1075774682513102638u64,
    12288855597731918557u64, 7630957203943736813u64, 18266581819069295512u64, 7178755141233660804u64,
    4141058203347666517u64, 1706688328464380812u64, 18139508229602344104u64, 7795978534936867411u64,
    8167620339974406278u64, 17123665445026313152u64, 1035546218440905388u64, 8971115372103014892u64,
];

/// The bishop hashers' shifts, square by square.
pub const BISHOP_SHIFTS: [u8; 64] = [
    58u8, 59u8, 58u8, 58u8, 58u8, 58u8, 59u8, 58u8, 59u8, 59u8, 58u8, 58u8, 58u8, 58u8, 59u8, 59u8,
    59u8, 59u8, 56u8, 56u8, 56u8, 56u8, 59u8, 59u8, 58u8, 58u8, 56u8, 54u8, 54u8, 56u8, 58u8, 58u8,
    58u8, 58u8, 56u8, 54u8, 54u8, 56u8, 58u8, 58u8, 59u8, 59u8, 56u8, 56u8, 56u8, 56u8, 59u8, 59u8,
    59u8, 59u8, 58u8, 58u8, 58u8, 58u8, 59u8, 59u8, 58u8, 59u8, 58u8, 58u8, 58u8, 58u8, 59u8, 58u8,
];

/// The rook hasher of square `i`.
pub open spec fn rook_hasher_at(i: int) -> MagicHasher {
    MagicHasher { premask: ROOK_PREMASKS[i], magic: ROOK_MAGICS[i], shift: ROOK_SHIFTS[i] }
}

/// The bishop hasher of square `i`.
pub open spec fn bishop_hasher_at(i: int) -> MagicHasher {
    MagicHasher { premask: BISHOP_PREMASKS[i], magic: BISHOP_MAGICS[i], shift: BISHOP_SHIFTS[i] }
}

/// The rook hashers, square by square.
pub fn rook_magic_hashers() -> (r: [MagicHasher; 64])
    ensures
        forall|i: int| 0 <= i < 64 ==> #[trigger] r[i] == rook_hasher_at(i),
{
    let mut r: [MagicHasher; 64] = [MagicHasher { premask: 0, magic: 0, shift: 0 }; 64];
    let mut i: usize = 0;
    while i < 64
        invariant
            i <= 64,
            forall|k: int| 0 <= k < i ==> #[trigger] r[k] == rook_hasher_at(k),
        decreases 64 - i,
    {
        r[i] = MagicHasher { premask: ROOK_PREMASKS[i], magic: ROOK_MAGICS[i], shift: ROOK_SHIFTS[i] };
        i += 1;
    }
    r
}

/// The bishop hashers, square by square.
pub fn bishop_magic_hashers() -> (r: [MagicHasher; 64])
    ensures
        forall|i: int| 0 <= i < 64 ==> #[trigger] r[i] == bishop_hasher_at(i),
{
    let mut r: [MagicHasher; 64] = [MagicHasher { premask: 0, magic: 0, shift: 0 }; 64];
    let mut i: usize = 0;
    while i < 64
        invariant
            i <= 64,
            forall|k: int| 0 <= k < i ==> #[trigger] r[k] == bishop_hasher_at(k),
        decreases 64 - i,
    {
        r[i] = MagicHasher { premask: BISHOP_PREMASKS[i], magic: BISHOP_MAGICS[i], shift: BISHOP_SHIFTS[i] };
        i += 1;
    }
    r
}

} // verus!
