//! Lighthouse system configuration files: where the base stations are and how they are turned.

use crate::text;
use crate::yaml;
use crate::yaml::{Yaml, YamlEntry, YamlEntryView, YamlView};
use vstd::prelude::*;
use vstd::string::*;

verus! {

/// The position of a base station and its rotation matrix by rows, as bits of doubles.
#[derive(Debug, Clone, Copy)]
pub struct StationGeometry {
    pub id: i64,
    pub origin: [u64; 3],
    pub rotation: [[u64; 3]; 3],
}

/// A message about a base station.
pub open spec fn station_message(id: i64, rest: Seq<char>) -> Seq<char> {
    "BS "@ + text::signed_decimal(id as int) + rest
}

/// Three numbers of a list, the first one that is none with its message.
pub open spec fn three_doubles(
    items: Seq<YamlView>,
    first: Seq<char>,
    second: Seq<char>,
    third: Seq<char>,
) -> Result<[u64; 3], Seq<char>> {
    if yaml::double_of(items[0]) is None {
        Err(first)
    } else if yaml::double_of(items[1]) is None {
        Err(second)
    } else if yaml::double_of(items[2]) is None {
        Err(third)
    } else {
        Ok(
            [
                yaml::double_of(items[0])->0,
                yaml::double_of(items[1])->0,
                yaml::double_of(items[2])->0,
            ],
        )
    }
}

/// The origin of a base station.
pub open spec fn origin_of(id: i64, geo: YamlView) -> Result<[u64; 3], Seq<char>> {
    match yaml::lookup(geo, "origin"@) {
        None => Err("Missing 'origin'"@),
        Some(origin) => match yaml::untagged(origin) {
            YamlView::List(items) => if items.len() != 3 {
                Err(station_message(id, ": origin must have 3 elements"@))
            } else {
                three_doubles(items, "Bad origin[0]"@, "Bad origin[1]"@, "Bad origin[2]"@)
            },
            _ => Err("'origin' is not a list"@),
        },
    }
}

/// A row of the rotation matrix of a base station.
pub open spec fn row_of(id: i64, row: YamlView, place: int) -> Result<[u64; 3], Seq<char>> {
    match yaml::untagged(row) {
        YamlView::List(items) => if items.len() != 3 {
            Err(
                station_message(
                    id,
                    ": rotation row "@ + text::decimal(place as nat) + " must have 3 elements"@,
                ),
            )
        } else {
            three_doubles(
                items,
                "Bad rotation element"@,
                "Bad rotation element"@,
                "Bad rotation element"@,
            )
        },
        _ => Err("rotation row not a list"@),
    }
}

/// The rotation matrix of a base station.
pub open spec fn rotation_of(id: i64, geo: YamlView) -> Result<[[u64; 3]; 3], Seq<char>> {
    match yaml::lookup(geo, "rotation"@) {
        None => Err("Missing 'rotation'"@),
        Some(rotation) => match yaml::untagged(rotation) {
            YamlView::List(rows) => if rows.len() != 3 {
                Err(station_message(id, ": rotation must have 3 rows"@))
            } else {
                match (row_of(id, rows[0], 0), row_of(id, rows[1], 1), row_of(id, rows[2], 2)) {
                    (Err(e), _, _) => Err(e),
                    (_, Err(e), _) => Err(e),
                    (_, _, Err(e)) => Err(e),
                    (Ok(a), Ok(b), Ok(c)) => Ok([a, b, c]),
                }
            },
            _ => Err("'rotation' is not a list"@),
        },
    }
}

/// An entry of the file: the number of a base station, its origin and its rotation.
pub open spec fn station_of(entry: YamlEntryView) -> Result<StationGeometry, Seq<char>> {
    match yaml::integer_of(entry.key) {
        None => Err("Invalid base station key: "@ + entry.shown),
        Some(id) => match origin_of(id, entry.value) {
            Err(e) => Err(e),
            Ok(origin) => match rotation_of(id, entry.value) {
                Err(e) => Err(e),
                Ok(rotation) => Ok(StationGeometry { id, origin, rotation }),
            },
        },
    }
}

/// The base stations with one more, in ascending order of their numbers; one of the same number
/// gives way.
pub open spec fn placed(stations: Seq<StationGeometry>, s: StationGeometry) -> Seq<StationGeometry>
    decreases stations.len(),
{
    if stations.len() == 0 {
        seq![s]
    } else if stations.last().id < s.id {
        stations.push(s)
    } else if stations.last().id == s.id {
        stations.drop_last().push(s)
    } else {
        placed(stations.drop_last(), s).push(stations.last())
    }
}

/// The base stations of the first `n` entries, up to the first one that is wrong.
pub open spec fn stations_of(entries: Seq<YamlEntryView>, n: nat) -> Result<
    Seq<StationGeometry>,
    Seq<char>,
>
    decreases n,
{
    if n == 0 {
        Ok(Seq::empty())
    } else {
        match stations_of(entries, (n - 1) as nat) {
            Err(e) => Err(e),
            Ok(stations) => match station_of(entries[n - 1]) {
                Err(e) => Err(e),
                Ok(s) => Ok(placed(stations, s)),
            },
        }
    }
}

/// The base stations of a configuration file.
pub open spec fn geometry_of(document: YamlView) -> Result<Seq<StationGeometry>, Seq<char>> {
    match yaml::lookup(document, "geos"@) {
        None => Err("Missing 'geos' key in file"@),
        Some(geos) => match yaml::untagged(geos) {
            YamlView::Mapping(entries) => stations_of(entries, entries.len()),
            _ => Err("'geos' is not a mapping"@),
        },
    }
}

/// The numbers ascend strictly.
pub open spec fn by_number(stations: Seq<StationGeometry>) -> bool {
    forall|i: int, j: int|
        0 <= i < j < stations.len() ==> (#[trigger] stations[i]).id < (#[trigger] stations[j]).id
}

proof fn lemma_placed(stations: Seq<StationGeometry>, s: StationGeometry)
    requires
        by_number(stations),
    ensures
        by_number(placed(stations, s)),
        placed(stations, s).len() > 0,
        placed(stations, s).last().id == (if stations.len() > 0 && stations.last().id > s.id {
            stations.last().id
        } else {
            s.id
        }),
        placed(stations, s).contains(s),
        forall|x: StationGeometry| #[trigger]
            placed(stations, s).contains(x) <==> x == s || (stations.contains(x) && x.id != s.id),
    decreases stations.len(),
{
    let after = placed(stations, s);
    if stations.len() == 0 {
        assert(after[0] == s);
    } else {
        let top = stations.len() - 1;
        let rest = stations.drop_last();
        assert forall|i: int, j: int| 0 <= i < j < rest.len() implies (#[trigger] rest[i]).id < (
        #[trigger] rest[j]).id by {
            assert(stations[i].id < stations[j].id);
        }
        let base = if stations.last().id < s.id {
            stations
        } else if stations.last().id == s.id {
            rest
        } else {
            lemma_placed(rest, s);
            placed(rest, s)
        };
        assert(by_number(base));
        assert(after.drop_last() =~= base);
        assert forall|i: int, j: int| 0 <= i < j < after.len() implies (#[trigger] after[i]).id < (
        #[trigger] after[j]).id by {
            if j < base.len() {
                assert(base[i].id < base[j].id);
            } else {
                assert(base[i].id <= base[base.len() - 1].id) by {
                    if i < base.len() - 1 {
                        assert(base[i].id < base[base.len() - 1].id);
                    }
                }
                if rest.len() > 0 {
                    assert(stations[rest.len() - 1].id < stations[top].id);
                }
            }
        }
        assert forall|x: StationGeometry| #[trigger] after.contains(x) <==> x == s || (
        stations.contains(x) && x.id != s.id) by {
            if after.contains(x) {
                let k = choose|k: int| 0 <= k < after.len() && after[k] == x;
                if k < base.len() {
                    assert(base[k] == x);
                    assert(base.contains(x));
                    if stations.last().id > s.id {
                        if x != s {
                            assert(rest.contains(x));
                            let m = choose|m: int| 0 <= m < rest.len() && rest[m] == x;
                            assert(stations[m] == x);
                        }
                    } else if stations.last().id == s.id {
                        assert(stations[k] == x);
                        assert(stations[k].id < stations[top].id);
                    } else {
                        assert(stations[k] == x);
                        if k < top {
                            assert(stations[k].id < stations[top].id);
                        }
                    }
                } else {
                    if stations.last().id > s.id {
                        assert(stations[top] == x);
                    }
                }
            }
            if x == s {
                if stations.last().id > s.id {
                    let k = choose|k: int| 0 <= k < base.len() && base[k] == s;
                    assert(after[k] == s);
                } else {
                    assert(after[after.len() - 1] == s);
                }
            } else if stations.contains(x) && x.id != s.id {
                let m = choose|m: int| 0 <= m < stations.len() && stations[m] == x;
                if m == top {
                    if stations.last().id > s.id {
                        assert(after[after.len() - 1] == x);
                    } else {
                        assert(base[m] == x);
                        assert(after[m] == x);
                    }
                } else {
                    assert(rest[m] == x);
                    assert(rest.contains(x));
                    if stations.last().id > s.id {
                        assert(base.contains(x));
                        let k = choose|k: int| 0 <= k < base.len() && base[k] == x;
                        assert(after[k] == x);
                    } else {
                        assert(base[m] == x);
                        assert(after[m] == x);
                    }
                }
            }
        }
    }
}

/// The base stations come in ascending order of their numbers, none twice, and each is what the
/// last entry with its number says.
pub proof fn law_stations_ordered(entries: Seq<YamlEntryView>, n: nat)
    requires
        n <= entries.len(),
        stations_of(entries, n) is Ok,
    ensures
        by_number(stations_of(entries, n)->Ok_0),
        forall|i: int|
            0 <= i < n && (forall|j: int|
                i < j < n ==> yaml::integer_of((#[trigger] entries[j]).key) != yaml::integer_of(
                    entries[i].key,
                )) ==> stations_of(entries, n)->Ok_0.contains(
                station_of(#[trigger] entries[i])->Ok_0,
            ),
    decreases n,
{
    if n > 0 {
        law_stations_ordered(entries, (n - 1) as nat);
        let before = stations_of(entries, (n - 1) as nat)->Ok_0;
        let s = station_of(entries[n - 1])->Ok_0;
        lemma_placed(before, s);
        let after = placed(before, s);
        assert forall|i: int|
            0 <= i < n && (forall|j: int|
                i < j < n ==> yaml::integer_of((#[trigger] entries[j]).key) != yaml::integer_of(
                    entries[i].key,
                )) implies after.contains(station_of(#[trigger] entries[i])->Ok_0) by {
            if i < n - 1 {
                lemma_entries_fine(entries, n, i);
                let x = station_of(entries[i])->Ok_0;
                assert(before.contains(x));
                assert(yaml::integer_of(entries[n - 1].key) != yaml::integer_of(entries[i].key));
                assert(x.id != s.id);
            }
        }
    }
}

proof fn lemma_entries_fine(entries: Seq<YamlEntryView>, n: nat, i: int)
    requires
        n <= entries.len(),
        stations_of(entries, n) is Ok,
        0 <= i < n,
    ensures
        station_of(entries[i]) is Ok,
        yaml::integer_of(entries[i].key) == Some(station_of(entries[i])->Ok_0.id),
    decreases n,
{
    if i < n - 1 {
        lemma_entries_fine(entries, (n - 1) as nat, i);
    }
}

// ---------------------------------------------------------------------------
// Reading
// ---------------------------------------------------------------------------

fn read_three(items: &Vec<Yaml>, first: &str, second: &str, third: &str) -> (r: Result<
    [u64; 3],
    String,
>)
    requires
        items@.len() == 3,
    ensures
        match r {
            Ok(a) => three_doubles(
                seq![items@[0]@, items@[1]@, items@[2]@],
                first@,
                second@,
                third@,
            ) == Ok::<[u64; 3], Seq<char>>(a),
            Err(e) => three_doubles(
                seq![items@[0]@, items@[1]@, items@[2]@],
                first@,
                second@,
                third@,
            ) == Err::<[u64; 3], Seq<char>>(e@),
        },
{
    let a: u64 = match items[0].as_double() {
        Some(bits) => bits,
        None => {
            return Err(first.to_string());
        },
    };
    let b: u64 = match items[1].as_double() {
        Some(bits) => bits,
        None => {
            return Err(second.to_string());
        },
    };
    let c: u64 = match items[2].as_double() {
        Some(bits) => bits,
        None => {
            return Err(third.to_string());
        },
    };
    Ok([a, b, c])
}

fn message(id: i64, rest: &str) -> (s: String)
    ensures
        s@ == station_message(id, rest@),
{
    let mut s = "BS ".to_string();
    text::push_signed(&mut s, id);
    s.append(rest);
    s
}

fn read_origin(id: i64, geo: &Yaml) -> (r: Result<[u64; 3], String>)
    ensures
        match r {
            Ok(a) => origin_of(id, geo@) == Ok::<[u64; 3], Seq<char>>(a),
            Err(e) => origin_of(id, geo@) == Err::<[u64; 3], Seq<char>>(e@),
        },
{
    let origin = match geo.get("origin") {
        Some(origin) => origin,
        None => {
            return Err("Missing 'origin'".to_string());
        },
    };
    let items = match origin.as_list() {
        Some(items) => items,
        None => {
            return Err("'origin' is not a list".to_string());
        },
    };
    if items.len() != 3 {
        return Err(message(id, ": origin must have 3 elements"));
    }
    let ghost views = yaml::untagged(origin@)->List_0;
    assert(views =~= seq![items@[0]@, items@[1]@, items@[2]@]);
    read_three(items, "Bad origin[0]", "Bad origin[1]", "Bad origin[2]")
}

fn read_row(id: i64, row: &Yaml, place: usize) -> (r: Result<[u64; 3], String>)
    requires
        place < 3,
    ensures
        match r {
            Ok(a) => row_of(id, row@, place as int) == Ok::<[u64; 3], Seq<char>>(a),
            Err(e) => row_of(id, row@, place as int) == Err::<[u64; 3], Seq<char>>(e@),
        },
{
    let items = match row.as_list() {
        Some(items) => items,
        None => {
            return Err("rotation row not a list".to_string());
        },
    };
    if items.len() != 3 {
        let mut rest = ": rotation row ".to_string();
        text::push_decimal(&mut rest, place as u64);
        rest.append(" must have 3 elements");
        return Err(message(id, rest.as_str()));
    }
    let ghost views = yaml::untagged(row@)->List_0;
    assert(views =~= seq![items@[0]@, items@[1]@, items@[2]@]);
    read_three(items, "Bad rotation element", "Bad rotation element", "Bad rotation element")
}

fn read_rotation(id: i64, geo: &Yaml) -> (r: Result<[[u64; 3]; 3], String>)
    ensures
        match r {
            Ok(a) => rotation_of(id, geo@) == Ok::<[[u64; 3]; 3], Seq<char>>(a),
            Err(e) => rotation_of(id, geo@) == Err::<[[u64; 3]; 3], Seq<char>>(e@),
        },
{
    let rotation = match geo.get("rotation") {
        Some(rotation) => rotation,
        None => {
            return Err("Missing 'rotation'".to_string());
        },
    };
    let rows = match rotation.as_list() {
        Some(rows) => rows,
        None => {
            return Err("'rotation' is not a list".to_string());
        },
    };
    if rows.len() != 3 {
        return Err(message(id, ": rotation must have 3 rows"));
    }
    let ghost views = yaml::untagged(rotation@)->List_0;
    assert(views[0] == rows@[0]@);
    assert(views[1] == rows@[1]@);
    assert(views[2] == rows@[2]@);
    let a = match read_row(id, &rows[0], 0) {
        Ok(row) => row,
        Err(e) => {
            return Err(e);
        },
    };
    let b = match read_row(id, &rows[1], 1) {
        Ok(row) => row,
        Err(e) => {
            return Err(e);
        },
    };
    let c = match read_row(id, &rows[2], 2) {
        Ok(row) => row,
        Err(e) => {
            return Err(e);
        },
    };
    Ok([a, b, c])
}

fn read_station(entry: &YamlEntry) -> (r: Result<StationGeometry, String>)
    ensures
        match r {
            Ok(s) => station_of(yaml::entry_tree(*entry)) == Ok::<StationGeometry, Seq<char>>(s),
            Err(e) => station_of(yaml::entry_tree(*entry)) == Err::<StationGeometry, Seq<char>>(
                e@,
            ),
        },
{
    let id: i64 = match entry.key.as_integer() {
        Some(id) => id,
        None => {
            return Err(text::concat2("Invalid base station key: ", entry.shown.as_str()));
        },
    };
    let origin = match read_origin(id, &entry.value) {
        Ok(origin) => origin,
        Err(e) => {
            return Err(e);
        },
    };
    let rotation = match read_rotation(id, &entry.value) {
        Ok(rotation) => rotation,
        Err(e) => {
            return Err(e);
        },
    };
    Ok(StationGeometry { id, origin, rotation })
}

fn place_station(stations: &mut Vec<StationGeometry>, s: StationGeometry)
    ensures
        final(stations)@ == placed(old(stations)@, s),
    decreases old(stations)@.len(),
{
    let ghost before = stations@;
    let n: usize = stations.len();
    if n == 0 {
        stations.push(s);
        assert(stations@ =~= seq![s]);
    } else if stations[n - 1].id < s.id {
        stations.push(s);
    } else if stations[n - 1].id == s.id {
        stations[n - 1] = s;
        assert(stations@ =~= before.drop_last().push(s));
    } else {
        let last = stations.pop();
        assert(stations@ =~= before.drop_last());
        place_station(stations, s);
        if let Some(last) = last {
            stations.push(last);
        }
    }
}

/// The base stations of a configuration document, in ascending order of their numbers.
pub fn read_geometry(document: &Yaml) -> (r: Result<Vec<StationGeometry>, String>)
    ensures
        match r {
            Ok(stations) => geometry_of(document@) == Ok::<Seq<StationGeometry>, Seq<char>>(
                stations@,
            ),
            Err(e) => geometry_of(document@) == Err::<Seq<StationGeometry>, Seq<char>>(e@),
        },
{
    let geos = match document.get("geos") {
        Some(geos) => geos,
        None => {
            return Err("Missing 'geos' key in file".to_string());
        },
    };
    let entries = match geos.as_mapping() {
        Some(entries) => entries,
        None => {
            return Err("'geos' is not a mapping".to_string());
        },
    };
    let ghost views = yaml::untagged(geos@)->Mapping_0;
    let mut stations: Vec<StationGeometry> = Vec::new();
    let mut i: usize = 0;
    while i < entries.len()
        invariant
            i <= entries@.len(),
            views.len() == entries@.len(),
            geometry_of(document@) == stations_of(views, views.len()),
            forall|k: int|
                0 <= k < entries@.len() ==> #[trigger] views[k] == yaml::entry_tree(entries@[k]),
            stations_of(views, i as nat) == Ok::<Seq<StationGeometry>, Seq<char>>(stations@),
        decreases entries.len() - i,
    {
        assert(views[i as int] == yaml::entry_tree(entries@[i as int]));
        match read_station(&entries[i]) {
            Ok(s) => {
                place_station(&mut stations, s);
            },
            Err(e) => {
                proof {
                    lemma_error_stays(views, (i + 1) as nat, views.len());
                }
                return Err(e);
            },
        }
        i = i + 1;
    }
    Ok(stations)
}

proof fn lemma_error_stays(entries: Seq<YamlEntryView>, n: nat, m: nat)
    requires
        n <= m,
        stations_of(entries, n) is Err,
    ensures
        stations_of(entries, m) == stations_of(entries, n),
    decreases m,
{
    if n < m {
        lemma_error_stays(entries, n, (m - 1) as nat);
    }
}

/// The base stations of a configuration file, given its text.
pub fn load_geometry_yaml(content: &str) -> (r: Result<Vec<StationGeometry>, String>)
    ensures
        match r {
            Ok(stations) => yaml::yaml_document(content@) is Ok && geometry_of(
                yaml::yaml_document(content@)->Ok_0,
            ) == Ok::<Seq<StationGeometry>, Seq<char>>(stations@),
            Err(e) => match yaml::yaml_document(content@) {
                Ok(document) => geometry_of(document) == Err::<Seq<StationGeometry>, Seq<char>>(e@),
                Err(reason) => e@ == "Failed to parse YAML: "@ + reason,
            },
        },
{
    match yaml::read_document(content) {
        Ok(value) => {
            let document = yaml::into_tree(value);
            read_geometry(&document)
        },
        Err(reason) => Err(text::concat2("Failed to parse YAML: ", reason.as_str())),
    }
}

/// What is read of a base station stands in its entry: the number is the key, the origin is its
/// list of three numbers in order, and so is every row of the rotation.
pub proof fn law_station_read(entry: YamlEntryView)
    requires
        station_of(entry) is Ok,
    ensures
        ({
            let s = station_of(entry)->Ok_0;
            let origin = yaml::untagged(yaml::lookup(entry.value, "origin"@)->0);
            let rotation = yaml::untagged(yaml::lookup(entry.value, "rotation"@)->0);
            &&& yaml::integer_of(entry.key) == Some(s.id)
            &&& origin matches YamlView::List(items) && items.len() == 3 && (forall|k: int|
                0 <= k < 3 ==> yaml::double_of(#[trigger] items[k]) == Some(s.origin[k]))
            &&& rotation matches YamlView::List(rows) && rows.len() == 3 && (forall|r: int|
                0 <= r < 3 ==> row_holds(#[trigger] rows[r], s.rotation[r]))
        }),
{
    let rotation = yaml::untagged(yaml::lookup(entry.value, "rotation"@)->0);
    if let YamlView::List(rows) = rotation {
        let id = yaml::integer_of(entry.key)->0;
        assert(row_of(id, rows[0], 0) is Ok);
        assert(row_of(id, rows[1], 1) is Ok);
        assert(row_of(id, rows[2], 2) is Ok);
    }
}

/// A row of a document holds three numbers, in order.
pub open spec fn row_holds(row: YamlView, numbers: [u64; 3]) -> bool {
    yaml::untagged(row) matches YamlView::List(items) && items.len() == 3 && (forall|k: int|
        0 <= k < 3 ==> yaml::double_of(#[trigger] items[k]) == Some(numbers[k]))
}

/// An entry with a whole number as its key, an origin of three numbers and a rotation of three
/// rows of three numbers is read.
pub proof fn law_station_accepted(entry: YamlEntryView, s: StationGeometry)
    requires
        yaml::integer_of(entry.key) == Some(s.id),
        yaml::lookup(entry.value, "origin"@) is Some,
        row_holds(yaml::lookup(entry.value, "origin"@)->0, s.origin),
        yaml::lookup(entry.value, "rotation"@) is Some,
        yaml::untagged(yaml::lookup(entry.value, "rotation"@)->0) matches YamlView::List(rows)
            && rows.len() == 3 && row_holds(rows[0], s.rotation[0]) && row_holds(
            rows[1],
            s.rotation[1],
        ) && row_holds(rows[2], s.rotation[2]),
    ensures
        station_of(entry) == Ok::<StationGeometry, Seq<char>>(s),
{
    let rotation = yaml::untagged(yaml::lookup(entry.value, "rotation"@)->0);
    let origin = yaml::untagged(yaml::lookup(entry.value, "origin"@)->0);
    if let YamlView::List(items) = origin {
        assert(yaml::double_of(items[0]) == Some(s.origin[0]));
        assert(yaml::double_of(items[1]) == Some(s.origin[1]));
        assert(yaml::double_of(items[2]) == Some(s.origin[2]));
        assert(origin_of(s.id, entry.value)->Ok_0 =~= s.origin);
    }
    if let YamlView::List(rows) = rotation {
        assert forall|r: int| 0 <= r < 3 implies row_of(s.id, #[trigger] rows[r], r) is Ok && row_of(
            s.id,
            rows[r],
            r,
        )->Ok_0 == s.rotation[r] by {
            assert(row_holds(rows[r], s.rotation[r]));
            if let YamlView::List(items) = yaml::untagged(rows[r]) {
                assert(yaml::double_of(items[0]) == Some(s.rotation[r][0]));
                assert(yaml::double_of(items[1]) == Some(s.rotation[r][1]));
                assert(yaml::double_of(items[2]) == Some(s.rotation[r][2]));
                assert(row_of(s.id, rows[r], r)->Ok_0 =~= s.rotation[r]);
            }
        }
        assert(row_of(s.id, rows[0], 0) is Ok);
        assert(row_of(s.id, rows[1], 1) is Ok);
        assert(row_of(s.id, rows[2], 2) is Ok);
        assert(rotation_of(s.id, entry.value)->Ok_0 =~= s.rotation);
    }
}

/// A file is refused at its first wrong entry, with the message of that entry; it is read if all
/// of its entries are right.
pub proof fn law_first_fault(entries: Seq<YamlEntryView>, n: nat, i: int)
    requires
        n <= entries.len(),
    ensures
        0 <= i < n && station_of(entries[i]) is Err && (forall|k: int|
            0 <= k < i ==> station_of(#[trigger] entries[k]) is Ok) ==> stations_of(entries, n) is Err
            && stations_of(entries, n)->Err_0 == station_of(entries[i])->Err_0,
        (forall|k: int| 0 <= k < n ==> station_of(#[trigger] entries[k]) is Ok) ==> stations_of(
            entries,
            n,
        ) is Ok,
    decreases n,
{
    if n > 0 {
        law_first_fault(entries, (n - 1) as nat, i);
    }
}

/// What is wrong with a file is told: the list of stations is missing or no mapping, a station has
/// no whole number, or its origin or rotation is missing or no list.
pub proof fn law_faults_told(document: YamlView, entry: YamlEntryView, id: i64)
    ensures
        yaml::lookup(document, "geos"@) is None ==> geometry_of(document) == Err::<
            Seq<StationGeometry>,
            Seq<char>,
        >("Missing 'geos' key in file"@),
        (yaml::lookup(document, "geos"@) matches Some(g) && !(yaml::untagged(g) is Mapping))
            ==> geometry_of(document) == Err::<Seq<StationGeometry>, Seq<char>>(
            "'geos' is not a mapping"@,
        ),
        yaml::integer_of(entry.key) is None ==> station_of(entry) == Err::<
            StationGeometry,
            Seq<char>,
        >("Invalid base station key: "@ + entry.shown),
        yaml::lookup(entry.value, "origin"@) is None ==> origin_of(id, entry.value) == Err::<
            [u64; 3],
            Seq<char>,
        >("Missing 'origin'"@),
        yaml::lookup(entry.value, "rotation"@) is None ==> rotation_of(id, entry.value) == Err::<
            [[u64; 3]; 3],
            Seq<char>,
        >("Missing 'rotation'"@),
        (yaml::lookup(entry.value, "origin"@) matches Some(o) && !(yaml::untagged(o) is List))
            ==> origin_of(id, entry.value) == Err::<[u64; 3], Seq<char>>("'origin' is not a list"@),
        (yaml::lookup(entry.value, "rotation"@) matches Some(o) && !(yaml::untagged(o) is List))
            ==> rotation_of(id, entry.value) == Err::<[[u64; 3]; 3], Seq<char>>(
            "'rotation' is not a list"@,
        ),
{
}

/// Lists of another length than three are refused with the number of the station and, for a row of
/// the rotation, its place.
pub proof fn law_lengths_told(id: i64, geo: YamlView, row: YamlView, place: nat)
    ensures
        (yaml::lookup(geo, "origin"@) matches Some(o) && (yaml::untagged(o) matches YamlView::List(l)
            && l.len() != 3)) ==> origin_of(id, geo) == Err::<[u64; 3], Seq<char>>(
            "BS "@ + text::signed_decimal(id as int) + ": origin must have 3 elements"@,
        ),
        (yaml::lookup(geo, "rotation"@) matches Some(o) && (yaml::untagged(o) matches YamlView::List(
            l,
        ) && l.len() != 3)) ==> rotation_of(id, geo) == Err::<[[u64; 3]; 3], Seq<char>>(
            "BS "@ + text::signed_decimal(id as int) + ": rotation must have 3 rows"@,
        ),
        (yaml::untagged(row) matches YamlView::List(l) && l.len() != 3) ==> row_of(
            id,
            row,
            place as int,
        ) == Err::<[u64; 3], Seq<char>>(
            "BS "@ + text::signed_decimal(id as int) + (": rotation row "@ + text::decimal(place)
                + " must have 3 elements"@),
        ),
        !(yaml::untagged(row) is List) ==> row_of(id, row, place as int) == Err::<
            [u64; 3],
            Seq<char>,
        >("rotation row not a list"@),
{
}

/// The first of three items that is no number is told by its own message.
pub proof fn law_items_told(items: Seq<YamlView>, a: Seq<char>, b: Seq<char>, c: Seq<char>)
    ensures
        yaml::double_of(items[0]) is None ==> three_doubles(items, a, b, c) == Err::<
            [u64; 3],
            Seq<char>,
        >(a),
        yaml::double_of(items[0]) is Some && yaml::double_of(items[1]) is None ==> three_doubles(
            items,
            a,
            b,
            c,
        ) == Err::<[u64; 3], Seq<char>>(b),
        yaml::double_of(items[0]) is Some && yaml::double_of(items[1]) is Some && yaml::double_of(
            items[2],
        ) is None ==> three_doubles(items, a, b, c) == Err::<[u64; 3], Seq<char>>(c),
{
}

} // verus!
