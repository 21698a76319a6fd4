pub mod decimal;
pub mod double_linked_list;
pub mod linked_list;
pub mod quick_find;
pub mod quick_union;
pub mod union_find;
