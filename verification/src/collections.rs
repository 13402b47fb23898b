//! Collections of saved requests, organized in a directory tree.

use vstd::prelude::*;
use crate::http_types::{AuthType, HttpMethod};
use crate::strmap::StringMap;

verus! {

/// A unique identifier for a collection item.
pub type CollectionId = u64;

/// A saved HTTP request within a collection.
pub struct SavedRequest {
    pub id: CollectionId,
    pub name: String,
    pub method: HttpMethod,
    pub url: String,
    pub params: String,
    pub headers: String,
    pub body: String,
    pub auth_type: AuthType,
    pub auth_bearer_token: String,
    pub auth_basic_username: String,
    pub auth_basic_password: String,
    pub auth_api_key: String,
    pub auth_api_value: String,
}

/// A folder that can contain requests or sub-folders.
pub struct Folder {
    pub id: CollectionId,
    pub name: String,
    pub items: Vec<CollectionItem>,
}

/// A collection item is either a request or a nested folder.
pub enum CollectionItem {
    Request(SavedRequest),
    Folder(Folder),
}

/// Root collection containing all folders and requests.
pub struct Collection {
    pub name: String,
    pub items: Vec<CollectionItem>,
    pub variables: StringMap,
}

} // verus!
