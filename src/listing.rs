use vstd::prelude::*;
use crate::metainfo::{bytes_eq, copy_bytes, lemma_bytes_deep_view};

verus! {

pub open spec fn text_uploaded_asc() -> Seq<u8> {
    seq![117u8, 112u8, 108u8, 111u8, 97u8, 100u8, 101u8, 100u8, 95u8, 65u8, 83u8, 67u8]
}

fn lit_uploaded_asc() -> (r: [u8; 12])
    ensures
        r@ == text_uploaded_asc(),
{
    let r: [u8; 12] = [117u8, 112u8, 108u8, 111u8, 97u8, 100u8, 101u8, 100u8, 95u8, 65u8, 83u8, 67u8];
    assert(r@ =~= text_uploaded_asc());
    r
}

pub open spec fn text_uploaded_desc() -> Seq<u8> {
    seq![117u8, 112u8, 108u8, 111u8, 97u8, 100u8, 101u8, 100u8, 95u8, 68u8, 69u8, 83u8, 67u8]
}

fn lit_uploaded_desc() -> (r: [u8; 13])
    ensures
        r@ == text_uploaded_desc(),
{
    let r: [u8; 13] = [117u8, 112u8, 108u8, 111u8, 97u8, 100u8, 101u8, 100u8, 95u8, 68u8, 69u8, 83u8, 67u8];
    assert(r@ =~= text_uploaded_desc());
    r
}

pub open spec fn text_seeders_asc() -> Seq<u8> {
    seq![115u8, 101u8, 101u8, 100u8, 101u8, 114u8, 115u8, 95u8, 65u8, 83u8, 67u8]
}

fn lit_seeders_asc() -> (r: [u8; 11])
    ensures
        r@ == text_seeders_asc(),
{
    let r: [u8; 11] = [115u8, 101u8, 101u8, 100u8, 101u8, 114u8, 115u8, 95u8, 65u8, 83u8, 67u8];
    assert(r@ =~= text_seeders_asc());
    r
}

pub open spec fn text_seeders_desc() -> Seq<u8> {
    seq![115u8, 101u8, 101u8, 100u8, 101u8, 114u8, 115u8, 95u8, 68u8, 69u8, 83u8, 67u8]
}

fn lit_seeders_desc() -> (r: [u8; 12])
    ensures
        r@ == text_seeders_desc(),
{
    let r: [u8; 12] = [115u8, 101u8, 101u8, 100u8, 101u8, 114u8, 115u8, 95u8, 68u8, 69u8, 83u8, 67u8];
    assert(r@ =~= text_seeders_desc());
    r
}

pub open spec fn text_leechers_asc() -> Seq<u8> {
    seq![108u8, 101u8, 101u8, 99u8, 104u8, 101u8, 114u8, 115u8, 95u8, 65u8, 83u8, 67u8]
}

fn lit_leechers_asc() -> (r: [u8; 12])
    ensures
        r@ == text_leechers_asc(),
{
    let r: [u8; 12] = [108u8, 101u8, 101u8, 99u8, 104u8, 101u8, 114u8, 115u8, 95u8, 65u8, 83u8, 67u8];
    assert(r@ =~= text_leechers_asc());
    r
}

pub open spec fn text_leechers_desc() -> Seq<u8> {
    seq![108u8, 101u8, 101u8, 99u8, 104u8, 101u8, 114u8, 115u8, 95u8, 68u8, 69u8, 83u8, 67u8]
}

fn lit_leechers_desc() -> (r: [u8; 13])
    ensures
        r@ == text_leechers_desc(),
{
    let r: [u8; 13] = [108u8, 101u8, 101u8, 99u8, 104u8, 101u8, 114u8, 115u8, 95u8, 68u8, 69u8, 83u8, 67u8];
    assert(r@ =~= text_leechers_desc());
    r
}

pub open spec fn text_name_asc() -> Seq<u8> {
    seq![110u8, 97u8, 109u8, 101u8, 95u8, 65u8, 83u8, 67u8]
}

fn lit_name_asc() -> (r: [u8; 8])
    ensures
        r@ == text_name_asc(),
{
    let r: [u8; 8] = [110u8, 97u8, 109u8, 101u8, 95u8, 65u8, 83u8, 67u8];
    assert(r@ =~= text_name_asc());
    r
}

pub open spec fn text_name_desc() -> Seq<u8> {
    seq![110u8, 97u8, 109u8, 101u8, 95u8, 68u8, 69u8, 83u8, 67u8]
}

fn lit_name_desc() -> (r: [u8; 9])
    ensures
        r@ == text_name_desc(),
{
    let r: [u8; 9] = [110u8, 97u8, 109u8, 101u8, 95u8, 68u8, 69u8, 83u8, 67u8];
    assert(r@ =~= text_name_desc());
    r
}

pub open spec fn text_size_asc() -> Seq<u8> {
    seq![115u8, 105u8, 122u8, 101u8, 95u8, 65u8, 83u8, 67u8]
}

fn lit_size_asc() -> (r: [u8; 8])
    ensures
        r@ == text_size_asc(),
{
    let r: [u8; 8] = [115u8, 105u8, 122u8, 101u8, 95u8, 65u8, 83u8, 67u8];
    assert(r@ =~= text_size_asc());
    r
}

pub open spec fn text_size_desc() -> Seq<u8> {
    seq![115u8, 105u8, 122u8, 101u8, 95u8, 68u8, 69u8, 83u8, 67u8]
}

fn lit_size_desc() -> (r: [u8; 9])
    ensures
        r@ == text_size_desc(),
{
    let r: [u8; 9] = [115u8, 105u8, 122u8, 101u8, 95u8, 68u8, 69u8, 83u8, 67u8];
    assert(r@ =~= text_size_desc());
    r
}

pub open spec fn text_ord_upload_asc() -> Seq<u8> {
    seq![117u8, 112u8, 108u8, 111u8, 97u8, 100u8, 95u8, 100u8, 97u8, 116u8, 101u8, 32u8, 65u8, 83u8, 67u8]
}

fn lit_ord_upload_asc() -> (r: [u8; 15])
    ensures
        r@ == text_ord_upload_asc(),
{
    let r: [u8; 15] = [117u8, 112u8, 108u8, 111u8, 97u8, 100u8, 95u8, 100u8, 97u8, 116u8, 101u8, 32u8, 65u8, 83u8, 67u8];
    assert(r@ =~= text_ord_upload_asc());
    r
}

pub open spec fn text_ord_upload_desc() -> Seq<u8> {
    seq![117u8, 112u8, 108u8, 111u8, 97u8, 100u8, 95u8, 100u8, 97u8, 116u8, 101u8, 32u8, 68u8, 69u8, 83u8, 67u8]
}

fn lit_ord_upload_desc() -> (r: [u8; 16])
    ensures
        r@ == text_ord_upload_desc(),
{
    let r: [u8; 16] = [117u8, 112u8, 108u8, 111u8, 97u8, 100u8, 95u8, 100u8, 97u8, 116u8, 101u8, 32u8, 68u8, 69u8, 83u8, 67u8];
    assert(r@ =~= text_ord_upload_desc());
    r
}

pub open spec fn text_ord_seeders_asc() -> Seq<u8> {
    seq![115u8, 101u8, 101u8, 100u8, 101u8, 114u8, 115u8, 32u8, 65u8, 83u8, 67u8]
}

fn lit_ord_seeders_asc() -> (r: [u8; 11])
    ensures
        r@ == text_ord_seeders_asc(),
{
    let r: [u8; 11] = [115u8, 101u8, 101u8, 100u8, 101u8, 114u8, 115u8, 32u8, 65u8, 83u8, 67u8];
    assert(r@ =~= text_ord_seeders_asc());
    r
}

pub open spec fn text_ord_seeders_desc() -> Seq<u8> {
    seq![115u8, 101u8, 101u8, 100u8, 101u8, 114u8, 115u8, 32u8, 68u8, 69u8, 83u8, 67u8]
}

fn lit_ord_seeders_desc() -> (r: [u8; 12])
    ensures
        r@ == text_ord_seeders_desc(),
{
    let r: [u8; 12] = [115u8, 101u8, 101u8, 100u8, 101u8, 114u8, 115u8, 32u8, 68u8, 69u8, 83u8, 67u8];
    assert(r@ =~= text_ord_seeders_desc());
    r
}

pub open spec fn text_ord_leechers_asc() -> Seq<u8> {
    seq![108u8, 101u8, 101u8, 99u8, 104u8, 101u8, 114u8, 115u8, 32u8, 65u8, 83u8, 67u8]
}

fn lit_ord_leechers_asc() -> (r: [u8; 12])
    ensures
        r@ == text_ord_leechers_asc(),
{
    let r: [u8; 12] = [108u8, 101u8, 101u8, 99u8, 104u8, 101u8, 114u8, 115u8, 32u8, 65u8, 83u8, 67u8];
    assert(r@ =~= text_ord_leechers_asc());
    r
}

pub open spec fn text_ord_leechers_desc() -> Seq<u8> {
    seq![108u8, 101u8, 101u8, 99u8, 104u8, 101u8, 114u8, 115u8, 32u8, 68u8, 69u8, 83u8, 67u8]
}

fn lit_ord_leechers_desc() -> (r: [u8; 13])
    ensures
        r@ == text_ord_leechers_desc(),
{
    let r: [u8; 13] = [108u8, 101u8, 101u8, 99u8, 104u8, 101u8, 114u8, 115u8, 32u8, 68u8, 69u8, 83u8, 67u8];
    assert(r@ =~= text_ord_leechers_desc());
    r
}

pub open spec fn text_ord_title_asc() -> Seq<u8> {
    seq![116u8, 105u8, 116u8, 108u8, 101u8, 32u8, 65u8, 83u8, 67u8]
}

fn lit_ord_title_asc() -> (r: [u8; 9])
    ensures
        r@ == text_ord_title_asc(),
{
    let r: [u8; 9] = [116u8, 105u8, 116u8, 108u8, 101u8, 32u8, 65u8, 83u8, 67u8];
    assert(r@ =~= text_ord_title_asc());
    r
}

pub open spec fn text_ord_title_desc() -> Seq<u8> {
    seq![116u8, 105u8, 116u8, 108u8, 101u8, 32u8, 68u8, 69u8, 83u8, 67u8]
}

fn lit_ord_title_desc() -> (r: [u8; 10])
    ensures
        r@ == text_ord_title_desc(),
{
    let r: [u8; 10] = [116u8, 105u8, 116u8, 108u8, 101u8, 32u8, 68u8, 69u8, 83u8, 67u8];
    assert(r@ =~= text_ord_title_desc());
    r
}

pub open spec fn text_ord_size_asc() -> Seq<u8> {
    seq![102u8, 105u8, 108u8, 101u8, 95u8, 115u8, 105u8, 122u8, 101u8, 32u8, 65u8, 83u8, 67u8]
}

fn lit_ord_size_asc() -> (r: [u8; 13])
    ensures
        r@ == text_ord_size_asc(),
{
    let r: [u8; 13] = [102u8, 105u8, 108u8, 101u8, 95u8, 115u8, 105u8, 122u8, 101u8, 32u8, 65u8, 83u8, 67u8];
    assert(r@ =~= text_ord_size_asc());
    r
}

pub open spec fn text_ord_size_desc() -> Seq<u8> {
    seq![102u8, 105u8, 108u8, 101u8, 95u8, 115u8, 105u8, 122u8, 101u8, 32u8, 68u8, 69u8, 83u8, 67u8]
}

fn lit_ord_size_desc() -> (r: [u8; 14])
    ensures
        r@ == text_ord_size_desc(),
{
    let r: [u8; 14] = [102u8, 105u8, 108u8, 101u8, 95u8, 115u8, 105u8, 122u8, 101u8, 32u8, 68u8, 69u8, 83u8, 67u8];
    assert(r@ =~= text_ord_size_desc());
    r
}

pub open spec fn text_sql_select() -> Seq<u8> {
    seq![83u8, 69u8, 76u8, 69u8, 67u8, 84u8, 32u8, 116u8, 116u8, 46u8, 42u8, 32u8, 70u8, 82u8, 79u8, 77u8, 32u8, 116u8, 111u8, 114u8, 114u8, 117u8, 115u8, 116u8, 95u8, 116u8, 111u8, 114u8, 114u8, 101u8, 110u8, 116u8, 115u8, 32u8, 116u8, 116u8, 32u8]
}

fn lit_sql_select() -> (r: [u8; 37])
    ensures
        r@ == text_sql_select(),
{
    let r: [u8; 37] = [83u8, 69u8, 76u8, 69u8, 67u8, 84u8, 32u8, 116u8, 116u8, 46u8, 42u8, 32u8, 70u8, 82u8, 79u8, 77u8, 32u8, 116u8, 111u8, 114u8, 114u8, 117u8, 115u8, 116u8, 95u8, 116u8, 111u8, 114u8, 114u8, 101u8, 110u8, 116u8, 115u8, 32u8, 116u8, 116u8, 32u8];
    assert(r@ =~= text_sql_select());
    r
}

pub open spec fn text_sql_join() -> Seq<u8> {
    seq![73u8, 78u8, 78u8, 69u8, 82u8, 32u8, 74u8, 79u8, 73u8, 78u8, 32u8, 116u8, 111u8, 114u8, 114u8, 117u8, 115u8, 116u8, 95u8, 99u8, 97u8, 116u8, 101u8, 103u8, 111u8, 114u8, 105u8, 101u8, 115u8, 32u8, 116u8, 99u8, 32u8, 79u8, 78u8, 32u8, 116u8, 116u8, 46u8, 99u8, 97u8, 116u8, 101u8, 103u8, 111u8, 114u8, 121u8, 95u8, 105u8, 100u8, 32u8, 61u8, 32u8, 116u8, 99u8, 46u8, 99u8, 97u8, 116u8, 101u8, 103u8, 111u8, 114u8, 121u8, 95u8, 105u8, 100u8, 32u8, 65u8, 78u8, 68u8, 32u8, 116u8, 99u8, 46u8, 110u8, 97u8, 109u8, 101u8, 32u8, 73u8, 78u8, 32u8, 40u8]
}

fn lit_sql_join() -> (r: [u8; 84])
    ensures
        r@ == text_sql_join(),
{
    let r: [u8; 84] = [73u8, 78u8, 78u8, 69u8, 82u8, 32u8, 74u8, 79u8, 73u8, 78u8, 32u8, 116u8, 111u8, 114u8, 114u8, 117u8, 115u8, 116u8, 95u8, 99u8, 97u8, 116u8, 101u8, 103u8, 111u8, 114u8, 105u8, 101u8, 115u8, 32u8, 116u8, 99u8, 32u8, 79u8, 78u8, 32u8, 116u8, 116u8, 46u8, 99u8, 97u8, 116u8, 101u8, 103u8, 111u8, 114u8, 121u8, 95u8, 105u8, 100u8, 32u8, 61u8, 32u8, 116u8, 99u8, 46u8, 99u8, 97u8, 116u8, 101u8, 103u8, 111u8, 114u8, 121u8, 95u8, 105u8, 100u8, 32u8, 65u8, 78u8, 68u8, 32u8, 116u8, 99u8, 46u8, 110u8, 97u8, 109u8, 101u8, 32u8, 73u8, 78u8, 32u8, 40u8];
    assert(r@ =~= text_sql_join());
    r
}

pub open spec fn text_sql_join_end() -> Seq<u8> {
    seq![41u8, 32u8]
}

fn lit_sql_join_end() -> (r: [u8; 2])
    ensures
        r@ == text_sql_join_end(),
{
    let r: [u8; 2] = [41u8, 32u8];
    assert(r@ =~= text_sql_join_end());
    r
}

pub open spec fn text_sql_where() -> Seq<u8> {
    seq![87u8, 72u8, 69u8, 82u8, 69u8, 32u8, 116u8, 105u8, 116u8, 108u8, 101u8, 32u8, 76u8, 73u8, 75u8, 69u8, 32u8, 63u8]
}

fn lit_sql_where() -> (r: [u8; 18])
    ensures
        r@ == text_sql_where(),
{
    let r: [u8; 18] = [87u8, 72u8, 69u8, 82u8, 69u8, 32u8, 116u8, 105u8, 116u8, 108u8, 101u8, 32u8, 76u8, 73u8, 75u8, 69u8, 32u8, 63u8];
    assert(r@ =~= text_sql_where());
    r
}

pub open spec fn text_sql_count() -> Seq<u8> {
    seq![83u8, 69u8, 76u8, 69u8, 67u8, 84u8, 32u8, 67u8, 79u8, 85u8, 78u8, 84u8, 40u8, 116u8, 111u8, 114u8, 114u8, 101u8, 110u8, 116u8, 95u8, 105u8, 100u8, 41u8, 32u8, 97u8, 115u8, 32u8, 99u8, 111u8, 117u8, 110u8, 116u8, 32u8, 70u8, 82u8, 79u8, 77u8, 32u8, 40u8]
}

fn lit_sql_count() -> (r: [u8; 40])
    ensures
        r@ == text_sql_count(),
{
    let r: [u8; 40] = [83u8, 69u8, 76u8, 69u8, 67u8, 84u8, 32u8, 67u8, 79u8, 85u8, 78u8, 84u8, 40u8, 116u8, 111u8, 114u8, 114u8, 101u8, 110u8, 116u8, 95u8, 105u8, 100u8, 41u8, 32u8, 97u8, 115u8, 32u8, 99u8, 111u8, 117u8, 110u8, 116u8, 32u8, 70u8, 82u8, 79u8, 77u8, 32u8, 40u8];
    assert(r@ =~= text_sql_count());
    r
}

pub open spec fn text_sql_order() -> Seq<u8> {
    seq![32u8, 79u8, 82u8, 68u8, 69u8, 82u8, 32u8, 66u8, 89u8, 32u8]
}

fn lit_sql_order() -> (r: [u8; 10])
    ensures
        r@ == text_sql_order(),
{
    let r: [u8; 10] = [32u8, 79u8, 82u8, 68u8, 69u8, 82u8, 32u8, 66u8, 89u8, 32u8];
    assert(r@ =~= text_sql_order());
    r
}

pub open spec fn text_sql_limit() -> Seq<u8> {
    seq![32u8, 76u8, 73u8, 77u8, 73u8, 84u8, 32u8, 63u8, 44u8, 32u8, 63u8]
}

fn lit_sql_limit() -> (r: [u8; 11])
    ensures
        r@ == text_sql_limit(),
{
    let r: [u8; 11] = [32u8, 76u8, 73u8, 77u8, 73u8, 84u8, 32u8, 63u8, 44u8, 32u8, 63u8];
    assert(r@ =~= text_sql_limit());
    r
}


pub open spec fn text_sql_where_none() -> Seq<u8> {
    seq![87u8, 72u8, 69u8, 82u8, 69u8, 32u8, 48u8, 32u8, 61u8, 32u8, 49u8, 32u8, 65u8, 78u8, 68u8, 32u8, 116u8, 105u8, 116u8, 108u8, 101u8, 32u8, 76u8, 73u8, 75u8, 69u8, 32u8, 63u8]
}

fn lit_sql_where_none() -> (r: [u8; 28])
    ensures
        r@ == text_sql_where_none(),
{
    let r: [u8; 28] = [87u8, 72u8, 69u8, 82u8, 69u8, 32u8, 48u8, 32u8, 61u8, 32u8, 49u8, 32u8, 65u8, 78u8, 68u8, 32u8, 116u8, 105u8, 116u8, 108u8, 101u8, 32u8, 76u8, 73u8, 75u8, 69u8, 32u8, 63u8];
    assert(r@ =~= text_sql_where_none());
    r
}

/// The orders a listing can be sorted in.
#[derive(Debug, Clone, Copy, PartialEq, Eq, Structural)]
pub enum SortOrder {
    UploadedAsc,
    UploadedDesc,
    SeedersAsc,
    SeedersDesc,
    LeechersAsc,
    LeechersDesc,
    NameAsc,
    NameDesc,
    SizeAsc,
    SizeDesc,
}

/// The order that a `sort` parameter names; anything unknown, or no parameter,
/// means newest uploads first.
pub open spec fn sort_of(s: Option<Seq<u8>>) -> SortOrder {
    match s {
        None => SortOrder::UploadedDesc,
        Some(s) => if s == text_uploaded_asc() {
            SortOrder::UploadedAsc
        } else if s == text_uploaded_desc() {
            SortOrder::UploadedDesc
        } else if s == text_seeders_asc() {
            SortOrder::SeedersAsc
        } else if s == text_seeders_desc() {
            SortOrder::SeedersDesc
        } else if s == text_leechers_asc() {
            SortOrder::LeechersAsc
        } else if s == text_leechers_desc() {
            SortOrder::LeechersDesc
        } else if s == text_name_asc() {
            SortOrder::NameAsc
        } else if s == text_name_desc() {
            SortOrder::NameDesc
        } else if s == text_size_asc() {
            SortOrder::SizeAsc
        } else if s == text_size_desc() {
            SortOrder::SizeDesc
        } else {
            SortOrder::UploadedDesc
        },
    }
}

/// The `sort` values that name an order.
pub open spec fn is_known_sort(s: Seq<u8>) -> bool {
    s == text_uploaded_asc() || s == text_uploaded_desc() || s == text_seeders_asc() || s
        == text_seeders_desc() || s == text_leechers_asc() || s == text_leechers_desc() || s
        == text_name_asc() || s == text_name_desc() || s == text_size_asc() || s
        == text_size_desc()
}

/// The `ORDER BY` clause of an order.
pub open spec fn order_clause(o: SortOrder) -> Seq<u8> {
    match o {
        SortOrder::UploadedAsc => text_ord_upload_asc(),
        SortOrder::UploadedDesc => text_ord_upload_desc(),
        SortOrder::SeedersAsc => text_ord_seeders_asc(),
        SortOrder::SeedersDesc => text_ord_seeders_desc(),
        SortOrder::LeechersAsc => text_ord_leechers_asc(),
        SortOrder::LeechersDesc => text_ord_leechers_desc(),
        SortOrder::NameAsc => text_ord_title_asc(),
        SortOrder::NameDesc => text_ord_title_desc(),
        SortOrder::SizeAsc => text_ord_size_asc(),
        SortOrder::SizeDesc => text_ord_size_desc(),
    }
}

impl SortOrder {
    /// Reads the `sort` query parameter.
    pub fn from_param(s: Option<&[u8]>) -> (r: SortOrder)
        ensures
            r == sort_of(match s {
                Some(b) => Some(b@),
                None => None,
            }),
    {
        match s {
            None => SortOrder::UploadedDesc,
            Some(b) => if bytes_eq(b, &lit_uploaded_asc()) {
                SortOrder::UploadedAsc
            } else if bytes_eq(b, &lit_uploaded_desc()) {
                SortOrder::UploadedDesc
            } else if bytes_eq(b, &lit_seeders_asc()) {
                SortOrder::SeedersAsc
            } else if bytes_eq(b, &lit_seeders_desc()) {
                SortOrder::SeedersDesc
            } else if bytes_eq(b, &lit_leechers_asc()) {
                SortOrder::LeechersAsc
            } else if bytes_eq(b, &lit_leechers_desc()) {
                SortOrder::LeechersDesc
            } else if bytes_eq(b, &lit_name_asc()) {
                SortOrder::NameAsc
            } else if bytes_eq(b, &lit_name_desc()) {
                SortOrder::NameDesc
            } else if bytes_eq(b, &lit_size_asc()) {
                SortOrder::SizeAsc
            } else if bytes_eq(b, &lit_size_desc()) {
                SortOrder::SizeDesc
            } else {
                SortOrder::UploadedDesc
            },
        }
    }

    /// The `ORDER BY` clause: a column and a direction.
    pub fn clause(&self) -> (r: Vec<u8>)
        ensures
            r@ == order_clause(*self),
    {
        match self {
            SortOrder::UploadedAsc => copy_bytes(&lit_ord_upload_asc()),
            SortOrder::UploadedDesc => copy_bytes(&lit_ord_upload_desc()),
            SortOrder::SeedersAsc => copy_bytes(&lit_ord_seeders_asc()),
            SortOrder::SeedersDesc => copy_bytes(&lit_ord_seeders_desc()),
            SortOrder::LeechersAsc => copy_bytes(&lit_ord_leechers_asc()),
            SortOrder::LeechersDesc => copy_bytes(&lit_ord_leechers_desc()),
            SortOrder::NameAsc => copy_bytes(&lit_ord_title_asc()),
            SortOrder::NameDesc => copy_bytes(&lit_ord_title_desc()),
            SortOrder::SizeAsc => copy_bytes(&lit_ord_size_asc()),
            SortOrder::SizeDesc => copy_bytes(&lit_ord_size_desc()),
        }
    }
}

/// An unknown `sort` value orders the listing as if none were given: newest
/// uploads first.
pub proof fn lemma_sort_closure(s: Seq<u8>)
    requires
        !is_known_sort(s),
    ensures
        sort_of(Some(s)) == SortOrder::UploadedDesc,
        order_clause(sort_of(Some(s))) == text_ord_upload_desc(),
{
}

/// The pieces of `s` between commas, in order (an empty `s` is one empty piece).
pub open spec fn split_commas(s: Seq<u8>) -> Seq<Seq<u8>>
    decreases s.len(),
{
    if s.len() == 0 {
        seq![Seq::empty()]
    } else if s.last() == 44u8 {
        split_commas(s.drop_last()).push(Seq::empty())
    } else {
        let parts = split_commas(s.drop_last());
        parts.update(parts.len() - 1, parts.last().push(s.last()))
    }
}

pub proof fn lemma_split_nonempty(s: Seq<u8>)
    ensures
        split_commas(s).len() >= 1,
    decreases s.len(),
{
    if s.len() > 0 {
        lemma_split_nonempty(s.drop_last());
    }
}

/// Splits a comma-separated list.
pub fn split_csv(s: &[u8]) -> (r: Vec<Vec<u8>>)
    ensures
        r.deep_view() == split_commas(s@),
{
    let mut parts: Vec<Vec<u8>> = Vec::new();
    let mut cur: Vec<u8> = Vec::new();
    let mut i: usize = 0;
    while i < s.len()
        invariant
            i <= s@.len(),
            parts.deep_view().push(cur@) == split_commas(s@.subrange(0, i as int)),
        decreases s@.len() - i,
    {
        let ghost pre = s@.subrange(0, i as int);
        assert(s@.subrange(0, i + 1).drop_last() =~= pre);
        proof {
            lemma_split_nonempty(pre);
        }
        if s[i] == 44u8 {
            let ghost old_parts = parts.deep_view();
            let ghost old_cur = cur@;
            proof {
                lemma_bytes_deep_view(cur);
            }
            parts.push(cur);
            cur = Vec::new();
            assert(parts.deep_view() =~= old_parts.push(old_cur));
            assert(parts.deep_view().push(cur@) =~= split_commas(s@.subrange(0, i + 1)));
        } else {
            cur.push(s[i]);
            assert(parts.deep_view().push(cur@) =~= split_commas(s@.subrange(0, i + 1)));
        }
        i = i + 1;
    }
    assert(s@.subrange(0, i as int) =~= s@);
    let ghost before = parts.deep_view();
    proof {
        lemma_bytes_deep_view(cur);
    }
    parts.push(cur);
    assert(parts.deep_view() =~= before.push(cur@));
    parts
}


/// The requested categories that name a known category, in the order requested.
pub open spec fn keep_known(req: Seq<Seq<u8>>, known: Seq<Seq<u8>>) -> Seq<Seq<u8>>
    decreases req.len(),
{
    if req.len() == 0 {
        Seq::empty()
    } else if known.contains(req.last()) {
        keep_known(req.drop_last(), known).push(req.last())
    } else {
        keep_known(req.drop_last(), known)
    }
}

/// `c` is one of `known`.
pub fn is_known(c: &[u8], known: &Vec<Vec<u8>>) -> (r: bool)
    ensures
        r == known.deep_view().contains(c@),
{
    let mut i: usize = 0;
    while i < known.len()
        invariant
            i <= known@.len(),
            forall|k: int| 0 <= k < i ==> known.deep_view()[k] != c@,
        decreases known@.len() - i,
    {
        proof {
            lemma_bytes_deep_view(known@[i as int]);
        }
        if bytes_eq(known[i].as_slice(), c) {
            assert(known.deep_view()[i as int] == c@);
            return true;
        }
        i = i + 1;
    }
    false
}

/// Keeps the requested categories that the category table holds; the others,
/// whatever they contain, are dropped.
pub fn filter_categories(req: &Vec<Vec<u8>>, known: &Vec<Vec<u8>>) -> (r: Vec<Vec<u8>>)
    ensures
        r.deep_view() == keep_known(req.deep_view(), known.deep_view()),
{
    let mut r: Vec<Vec<u8>> = Vec::new();
    let mut i: usize = 0;
    while i < req.len()
        invariant
            i <= req@.len(),
            r.deep_view() == keep_known(req.deep_view().subrange(0, i as int), known.deep_view()),
        decreases req@.len() - i,
    {
        assert(req.deep_view().subrange(0, i + 1).drop_last() =~= req.deep_view().subrange(0, i as int));
        proof {
            lemma_bytes_deep_view(req@[i as int]);
        }
        if is_known(req[i].as_slice(), known) {
            let c = copy_bytes(req[i].as_slice());
            let ghost before = r.deep_view();
            proof {
                lemma_bytes_deep_view(c);
            }
            r.push(c);
            assert(r.deep_view() =~= before.push(c@));
        }
        i = i + 1;
    }
    assert(req.deep_view().subrange(0, i as int) =~= req.deep_view());
    r
}

/// Only names of the category table reach a query, and no more of them than
/// were requested.
pub proof fn lemma_category_safety(req: Seq<Seq<u8>>, known: Seq<Seq<u8>>)
    ensures
        forall|i: int|
            0 <= i < keep_known(req, known).len() ==> known.contains(
                #[trigger] keep_known(req, known)[i],
            ),
        keep_known(req, known).len() <= req.len(),
    decreases req.len(),
{
    if req.len() > 0 {
        lemma_category_safety(req.drop_last(), known);
    }
}

/// Two requests whose category lists keep the same known names, with the other
/// parameters equal, issue the same statements and bind the same names: names
/// outside the category table have no influence. A filter that keeps no name
/// (an injection attempt such as `x' OR 1=1 --`) matches no row.
pub proof fn lemma_unknown_names_ignored(p1: DisplayInfo, p2: DisplayInfo, known: Seq<Seq<u8>>)
    requires
        p1.categories is Some,
        p2.categories is Some,
        listing_categories(p1, known) == listing_categories(p2, known),
        opt_view(p1.sort) == opt_view(p2.sort),
    ensures
        select_query(listing_categories(p1, known).len(), true, sort_of(opt_view(p1.sort)))
            == select_query(listing_categories(p2, known).len(), true, sort_of(opt_view(p2.sort))),
        count_query(listing_categories(p1, known).len(), true) == count_query(
            listing_categories(p2, known).len(),
            true,
        ),
        listing_categories(p1, known).len() == 0 ==> base_query(0, true)
            == text_sql_select() + text_sql_where_none(),
{
}

/// `n` placeholders separated by commas: `?, ?, ?`.
pub open spec fn placeholders(n: nat) -> Seq<u8>
    decreases n,
{
    if n == 0 {
        Seq::empty()
    } else if n == 1 {
        seq![63u8]
    } else {
        placeholders((n - 1) as nat) + seq![44u8, 32u8, 63u8]
    }
}

/// The filtered selection shared by the listing and its count, with a bound
/// title pattern. With `n > 0` category names it joins the category table
/// restricted to `n` bound names; with a category filter that kept no name
/// (`filtered` and `n == 0`) it matches no row; without a filter it has no join.
pub open spec fn base_query(n: nat, filtered: bool) -> Seq<u8> {
    text_sql_select() + if n > 0 {
        text_sql_join() + placeholders(n) + text_sql_join_end() + text_sql_where()
    } else if filtered {
        text_sql_where_none()
    } else {
        text_sql_where()
    }
}

/// The page query: the shared selection, ordered, with a bound offset and limit.
pub open spec fn select_query(n: nat, filtered: bool, o: SortOrder) -> Seq<u8> {
    base_query(n, filtered) + text_sql_order() + order_clause(o) + text_sql_limit()
}

/// The count query: the shared selection, counted.
pub open spec fn count_query(n: nat, filtered: bool) -> Seq<u8> {
    text_sql_count() + base_query(n, filtered) + seq![41u8]
}

fn push_all(s: &[u8], out: &mut Vec<u8>)
    ensures
        final(out)@ == old(out)@ + s@,
{
    let mut i: usize = 0;
    while i < s.len()
        invariant
            i <= s@.len(),
            out@ == old(out)@ + s@.subrange(0, i as int),
        decreases s@.len() - i,
    {
        out.push(s[i]);
        i = i + 1;
        assert(out@ =~= old(out)@ + s@.subrange(0, i as int));
    }
    assert(s@.subrange(0, i as int) =~= s@);
}

/// The shared selection for `n` category names.
pub fn build_base_query(n: usize, filtered: bool) -> (r: Vec<u8>)
    ensures
        r@ == base_query(n as nat, filtered),
{
    let mut out: Vec<u8> = Vec::new();
    push_all(&lit_sql_select(), &mut out);
    let ghost a = out@;
    if n > 0 {
        push_all(&lit_sql_join(), &mut out);
        let ghost b = out@;
        out.push(63u8);
        let mut i: usize = 1;
        assert(out@ =~= b + placeholders(1));
        while i < n
            invariant
                1 <= i <= n,
                out@ == b + placeholders(i as nat),
            decreases n - i,
        {
            out.push(44u8);
            out.push(32u8);
            out.push(63u8);
            i = i + 1;
            assert(out@ =~= b + placeholders(i as nat));
        }
        push_all(&lit_sql_join_end(), &mut out);
        push_all(&lit_sql_where(), &mut out);
    } else if filtered {
        push_all(&lit_sql_where_none(), &mut out);
    } else {
        push_all(&lit_sql_where(), &mut out);
    }
    assert(out@ =~= base_query(n as nat, filtered));
    out
}

/// The listing query parameters, each optional.
pub struct DisplayInfo {
    pub page_size: Option<i32>,
    pub page: Option<i32>,
    pub sort: Option<Vec<u8>>,
    /// A comma-separated list of category names.
    pub categories: Option<Vec<u8>>,
    pub search: Option<Vec<u8>>,
}

/// The page size used when none (or no positive one) is given.
pub const DEFAULT_PAGE_SIZE: i32 = 30;

/// The largest page size served.
pub const MAX_PAGE_SIZE: i32 = 100;

pub open spec fn page_of(p: Option<i32>) -> int {
    match p {
        Some(n) => if n > 0 { n as int } else { 0 },
        None => 0,
    }
}

pub open spec fn page_size_of(p: Option<i32>) -> int {
    match p {
        Some(n) => if n <= 0 {
            DEFAULT_PAGE_SIZE as int
        } else if n > MAX_PAGE_SIZE {
            MAX_PAGE_SIZE as int
        } else {
            n as int
        },
        None => DEFAULT_PAGE_SIZE as int,
    }
}

/// The title pattern: `%term%`, or `%` when there is no search term.
pub open spec fn search_pattern(s: Option<Seq<u8>>) -> Seq<u8> {
    match s {
        Some(t) => seq![37u8] + t + seq![37u8],
        None => seq![37u8],
    }
}

pub open spec fn opt_view(o: Option<Vec<u8>>) -> Option<Seq<u8>> {
    match o {
        Some(v) => Some(v@),
        None => None,
    }
}

/// The categories a listing is filtered on.
pub open spec fn listing_categories(p: DisplayInfo, known: Seq<Seq<u8>>) -> Seq<Seq<u8>> {
    match p.categories {
        Some(c) => keep_known(split_commas(c@), known),
        None => Seq::empty(),
    }
}

/// The two statements of a listing and the values bound to them: the category
/// names first, then the title pattern, then (page query only) offset and limit.
pub struct ListingQuery {
    pub select: Vec<u8>,
    pub count: Vec<u8>,
    pub categories: Vec<Vec<u8>>,
    pub search: Vec<u8>,
    pub offset: i64,
    pub limit: i64,
}

/// Composes the listing for the given parameters, with `known` the names of
/// the category table. User text reaches the statements only as bound values.
pub fn get_torrents(params: &DisplayInfo, known: &Vec<Vec<u8>>) -> (r: ListingQuery)
    ensures
        r.categories.deep_view() == listing_categories(*params, known.deep_view()),
        r.select@ == select_query(
            r.categories@.len() as nat,
            params.categories is Some,
            sort_of(opt_view(params.sort)),
        ),
        r.count@ == count_query(r.categories@.len() as nat, params.categories is Some),
        r.search@ == search_pattern(opt_view(params.search)),
        r.limit as int == page_size_of(params.page_size),
        r.offset as int == page_of(params.page) * page_size_of(params.page_size),
{
    let page: i64 = match params.page {
        Some(n) => if n > 0 { n as i64 } else { 0 },
        None => 0,
    };
    let size: i64 = match params.page_size {
        Some(n) => if n <= 0 {
            DEFAULT_PAGE_SIZE as i64
        } else if n > MAX_PAGE_SIZE {
            MAX_PAGE_SIZE as i64
        } else {
            n as i64
        },
        None => DEFAULT_PAGE_SIZE as i64,
    };
    assert(0 <= page * size <= 2147483647 * 100) by (nonlinear_arith)
        requires
            0 <= page <= 2147483647,
            0 < size <= 100,
    ;
    let categories = match &params.categories {
        Some(c) => {
            let req = split_csv(c.as_slice());
            filter_categories(&req, known)
        },
        None => {
            let v: Vec<Vec<u8>> = Vec::new();
            assert(v.deep_view() =~= Seq::<Seq<u8>>::empty());
            v
        },
    };
    let n = categories.len();
    assert(categories@.len() == categories.deep_view().len());
    let order = match &params.sort {
        Some(s) => SortOrder::from_param(Some(s.as_slice())),
        None => SortOrder::from_param(None),
    };
    let filtered = params.categories.is_some();
    let base = build_base_query(n, filtered);
    let mut select = Vec::new();
    push_all(base.as_slice(), &mut select);
    push_all(&lit_sql_order(), &mut select);
    let clause = order.clause();
    push_all(clause.as_slice(), &mut select);
    push_all(&lit_sql_limit(), &mut select);
    assert(select@ =~= select_query(n as nat, filtered, order));
    let mut count = Vec::new();
    push_all(&lit_sql_count(), &mut count);
    push_all(base.as_slice(), &mut count);
    count.push(41u8);
    assert(count@ =~= count_query(n as nat, filtered));
    let mut search: Vec<u8> = Vec::new();
    search.push(37u8);
    match &params.search {
        Some(t) => {
            push_all(t.as_slice(), &mut search);
            search.push(37u8);
        },
        None => {},
    }
    assert(search@ =~= search_pattern(opt_view(params.search)));
    ListingQuery { select, count, categories, search, offset: page * size, limit: size }
}

/// The rows that one page shows.
pub open spec fn page_rows<T>(rows: Seq<T>, page: nat, size: nat) -> Seq<T> {
    let lo = if page * size < rows.len() { page * size } else { rows.len() as nat };
    let hi = if page * size + size < rows.len() { page * size + size } else { rows.len() as nat };
    rows.subrange(lo as int, hi as int)
}

/// The rows of the first `k` pages, one page after the other.
pub open spec fn first_pages<T>(rows: Seq<T>, size: nat, k: nat) -> Seq<T>
    decreases k,
{
    if k == 0 {
        Seq::empty()
    } else {
        first_pages(rows, size, (k - 1) as nat) + page_rows(rows, (k - 1) as nat, size)
    }
}

/// Paging through all results with the same filters gives back every row once,
/// in order; so the count of the filtered selection is the number of rows that
/// the pages show.
pub proof fn lemma_count_agreement<T>(rows: Seq<T>, size: nat, k: nat)
    requires
        size > 0,
        k * size >= rows.len(),
    ensures
        first_pages(rows, size, k) == rows,
        first_pages(rows, size, k).len() == rows.len(),
{
    lemma_first_pages(rows, size, k);
    assert(rows.subrange(0, rows.len() as int) =~= rows);
}

proof fn lemma_first_pages<T>(rows: Seq<T>, size: nat, k: nat)
    requires
        size > 0,
    ensures
        first_pages(rows, size, k) == rows.subrange(
            0,
            if k * size < rows.len() { (k * size) as int } else { rows.len() as int },
        ),
    decreases k,
{
    if k > 0 {
        lemma_first_pages(rows, size, (k - 1) as nat);
        assert((k - 1) * size + size == k * size) by (nonlinear_arith);
        assert((k - 1) * size <= k * size) by (nonlinear_arith)
            requires
                k > 0,
        ;
        let lo: int = if (k - 1) * size < rows.len() { ((k - 1) * size) as int } else { rows.len() as int };
        let hi: int = if k * size < rows.len() { (k * size) as int } else { rows.len() as int };
        assert(rows.subrange(0, lo) + rows.subrange(lo, hi) =~= rows.subrange(0, hi));
    } else {
        assert(rows.subrange(0, 0) =~= Seq::<T>::empty());
    }
}

} // verus!
