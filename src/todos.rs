use vstd::prelude::*;

use crate::model::{CreateModel, TodoModel, UpdateModel};

verus! {

/// One item of a client's list.
#[derive(Debug, Clone)]
pub struct Todo {
    pub id: usize,
    pub title: String,
    pub desc: String,
    pub is_done: bool,
}

impl View for Todo {
    type V = TodoModel;

    open spec fn view(&self) -> TodoModel {
        TodoModel { id: self.id as nat, title: self.title@, desc: self.desc@, is_done: self.is_done }
    }
}

impl Todo {
    /// A field-by-field copy of this item.
    pub fn copied(&self) -> (r: Todo)
        ensures
            r@ == self@,
    {
        Todo {
            id: self.id,
            title: self.title.clone(),
            desc: self.desc.clone(),
            is_done: self.is_done,
        }
    }
}

/// The fields a caller supplies to create an item; the store picks the id.
#[derive(Debug, Clone)]
pub struct CreateTodo {
    pub title: String,
    pub desc: String,
    pub is_done: bool,
}

impl View for CreateTodo {
    type V = CreateModel;

    open spec fn view(&self) -> CreateModel {
        CreateModel { title: self.title@, desc: self.desc@, is_done: self.is_done }
    }
}

/// A partial update: each present field overwrites, each absent one is kept.
#[derive(Debug, Clone)]
pub struct UpdateTodo {
    pub title: Option<String>,
    pub desc: Option<String>,
    pub is_done: Option<bool>,
}

impl View for UpdateTodo {
    type V = UpdateModel;

    open spec fn view(&self) -> UpdateModel {
        UpdateModel {
            title: match self.title {
                Some(s) => Some(s@),
                None => None,
            },
            desc: match self.desc {
                Some(s) => Some(s@),
                None => None,
            },
            is_done: self.is_done,
        }
    }
}

/// The textual network address that identifies a client.
#[derive(Debug, Clone)]
pub struct SocketIPAddr(String);

impl View for SocketIPAddr {
    type V = Seq<char>;

    closed spec fn view(&self) -> Seq<char> {
        self.0@
    }
}

impl SocketIPAddr {
    pub fn new(ip: String) -> (r: SocketIPAddr)
        ensures
            r@ == ip@,
    {
        SocketIPAddr(ip)
    }

    /// The address as text, used as the client's key in the store.
    pub fn ip(&self) -> (r: &String)
        ensures
            r@ == self@,
    {
        &self.0
    }
}

/// The body of an error response.
#[derive(Debug, Clone)]
pub struct ErrorRes {
    message: String,
}

impl View for ErrorRes {
    type V = Seq<char>;

    closed spec fn view(&self) -> Seq<char> {
        self.message@
    }
}

impl ErrorRes {
    pub fn new(message: String) -> (r: ErrorRes)
        ensures
            r@ == message@,
    {
        ErrorRes { message }
    }

    pub fn message(&self) -> (r: &String)
        ensures
            r@ == self@,
    {
        &self.message
    }
}

} // verus!
